use fileserve::build_response;
use fileserve::render_listing;
use fileserve::FsEntry;
use fileserve::ResolvedContent;
use std::sync::mpsc::channel;
use threadpool::ThreadPool;

// Requests to disjoint paths are handled independently: none blocks on
// another, so every one of N concurrent requests completes, and each
// yields exactly the bytes it would yield alone.
#[test]
fn disjoint_requests_all_complete_across_workers() {
    let workers = 4;
    let requests = 8;
    let pool = ThreadPool::new(workers);
    let (send, recv) = channel();
    for i in 0..requests {
        let send = send.clone();
        pool.execute(move || {
            let path = format!("/dir{}/", i);
            let entries = vec![FsEntry {
                name: format!("file{}.txt", i).into_bytes(),
                is_dir: false,
            }];
            let page = render_listing(&path, entries);
            let response = build_response(Ok(ResolvedContent::Directory(page)));
            send.send((i, response)).expect("channel stays open");
        });
    }
    drop(send);
    let mut seen = vec![false; requests];
    for _ in 0..requests {
        let (i, response) = recv.recv().expect("every request completes");
        let expected = build_response(Ok(ResolvedContent::Directory(render_listing(
            &format!("/dir{}/", i),
            vec![FsEntry { name: format!("file{}.txt", i).into_bytes(), is_dir: false }],
        ))));
        assert_eq!(response, expected);
        seen[i] = true;
    }
    assert!(seen.iter().all(|s| *s));
}
