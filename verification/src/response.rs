//! Response framing: mapping a resolution outcome to the exact bytes
//! written back on the connection.

use crate::bytes::push_bytes;
use crate::bytes::push_str_bytes;
use vstd::prelude::*;
use vstd::utf8::encode_utf8;

verus! {

/// What path resolution produced: a rendered directory listing, or the raw
/// bytes of a file. Never partially populated.
pub enum ResolvedContent {
    Directory(Vec<u8>),
    File(Vec<u8>),
}

/// Why path resolution failed: the target does not exist, or it exists but
/// reading it (or listing it) failed.
#[derive(Clone, Copy, PartialEq, Eq, Structural, Debug)]
pub enum FetchFailure {
    NotFound,
    IoFailure,
}

/// The status line of a success response.
pub open spec fn ok_status() -> Seq<u8> {
    encode_utf8("HTTP/1.1 200 Ok"@)
}

/// The line break between the status line and the header.
pub open spec fn line_break() -> Seq<u8> {
    encode_utf8("\n"@)
}

/// The blank line separating the head from the body.
pub open spec fn blank_line() -> Seq<u8> {
    encode_utf8("\n\n"@)
}

/// The content-type header carried by every response.
pub open spec fn html_content_type() -> Seq<u8> {
    encode_utf8("Content-Type: text/html; charset=utf-8"@)
}

/// The disposition header of a file response, telling the client to save
/// the body rather than render it.
pub open spec fn attachment_disposition() -> Seq<u8> {
    encode_utf8("Content-Disposition: attachment"@)
}

/// The head of a directory response: status 200, the HTML content type,
/// and the blank line before the body.
pub open spec fn directory_head() -> Seq<u8> {
    ok_status() + line_break() + html_content_type() + blank_line()
}

/// The head of a file response: status 200, the HTML content type, and the
/// attachment disposition.
pub open spec fn file_head() -> Seq<u8> {
    ok_status() + line_break() + html_content_type() + line_break() + attachment_disposition()
        + blank_line()
}

/// The head of the not-found response: status 404.
pub open spec fn not_found_head() -> Seq<u8> {
    encode_utf8("HTTP/1.1 404 Not Found"@) + line_break() + html_content_type() + blank_line()
}

/// The fixed body of the not-found response. Its final piece is the
/// phrase that names the failure.
pub open spec fn not_found_body() -> Seq<u8> {
    encode_utf8("<h1> Error: "@) + encode_utf8("File Not Found"@)
}

/// The head of the server-error response: status 500.
pub open spec fn server_error_head() -> Seq<u8> {
    encode_utf8("HTTP/1.1 500 Server Error"@) + line_break() + html_content_type() + blank_line()
}

/// The fixed body of the server-error response. The underlying cause is
/// never echoed to the client.
pub open spec fn server_error_body() -> Seq<u8> {
    encode_utf8("<h1> 500 Internal Error"@)
}

/// The complete response for each resolution outcome.
pub open spec fn response_bytes(content: Result<ResolvedContent, FetchFailure>) -> Seq<u8> {
    match content {
        Ok(ResolvedContent::Directory(html)) => directory_head() + html@,
        Ok(ResolvedContent::File(body)) => file_head() + body@,
        Err(FetchFailure::NotFound) => not_found_head() + not_found_body(),
        Err(FetchFailure::IoFailure) => server_error_head() + server_error_body(),
    }
}

/// Frame the response for a resolution outcome: a 200 head before a
/// rendered listing or a file's raw bytes, the fixed 404 page when the
/// target does not exist, and the fixed 500 page on any other failure.
pub fn build_response(content: Result<ResolvedContent, FetchFailure>) -> (r: Vec<u8>)
    ensures
        r@ == response_bytes(content),
{
    let mut out: Vec<u8> = Vec::new();
    match content {
        Ok(ResolvedContent::Directory(html)) => {
            push_str_bytes(&mut out, "HTTP/1.1 200 Ok");
            push_str_bytes(&mut out, "\n");
            push_str_bytes(&mut out, "Content-Type: text/html; charset=utf-8");
            push_str_bytes(&mut out, "\n\n");
            push_bytes(&mut out, html.as_slice());
            proof {
                assert(out@ =~= directory_head() + html@);
            }
        },
        Ok(ResolvedContent::File(body)) => {
            push_str_bytes(&mut out, "HTTP/1.1 200 Ok");
            push_str_bytes(&mut out, "\n");
            push_str_bytes(&mut out, "Content-Type: text/html; charset=utf-8");
            push_str_bytes(&mut out, "\n");
            push_str_bytes(&mut out, "Content-Disposition: attachment");
            push_str_bytes(&mut out, "\n\n");
            push_bytes(&mut out, body.as_slice());
            proof {
                assert(out@ =~= file_head() + body@);
            }
        },
        Err(FetchFailure::NotFound) => {
            push_str_bytes(&mut out, "HTTP/1.1 404 Not Found");
            push_str_bytes(&mut out, "\n");
            push_str_bytes(&mut out, "Content-Type: text/html; charset=utf-8");
            push_str_bytes(&mut out, "\n\n");
            push_str_bytes(&mut out, "<h1> Error: ");
            push_str_bytes(&mut out, "File Not Found");
            proof {
                assert(out@ =~= not_found_head() + not_found_body());
            }
        },
        Err(FetchFailure::IoFailure) => {
            push_str_bytes(&mut out, "HTTP/1.1 500 Server Error");
            push_str_bytes(&mut out, "\n");
            push_str_bytes(&mut out, "Content-Type: text/html; charset=utf-8");
            push_str_bytes(&mut out, "\n\n");
            push_str_bytes(&mut out, "<h1> 500 Internal Error");
            proof {
                assert(out@ =~= server_error_head() + server_error_body());
            }
        },
    }
    out
}

/// A file response carries the file's bytes unchanged after its head, and
/// begins with the 200 status line.
pub proof fn lemma_file_response_exact(body: Seq<u8>)
    ensures
        (file_head() + body).len() == file_head().len() + body.len(),
        (file_head() + body).skip(file_head().len() as int) == body,
        (file_head() + body).take(ok_status().len() as int) == ok_status(),
{
    assert((file_head() + body).skip(file_head().len() as int) =~= body);
    assert((file_head() + body).take(ok_status().len() as int) =~= ok_status());
}

/// A directory response begins with the 200 status line, names the HTML
/// content type right after it, and carries the rendered listing unchanged
/// after its head.
pub proof fn lemma_directory_response_exact(html: Seq<u8>)
    ensures
        (directory_head() + html).skip(directory_head().len() as int) == html,
        (directory_head() + html).take(ok_status().len() as int) == ok_status(),
        (directory_head() + html).subrange(
            (ok_status().len() + line_break().len()) as int,
            (ok_status().len() + line_break().len() + html_content_type().len()) as int,
        ) == html_content_type(),
{
    assert((directory_head() + html).skip(directory_head().len() as int) =~= html);
    assert((directory_head() + html).take(ok_status().len() as int) =~= ok_status());
    assert((directory_head() + html).subrange(
        (ok_status().len() + line_break().len()) as int,
        (ok_status().len() + line_break().len() + html_content_type().len()) as int,
    ) =~= html_content_type());
}

/// The not-found response begins with the 404 status line, and its body
/// contains the phrase naming the failure.
pub proof fn lemma_not_found_phrase()
    ensures
        (not_found_head() + not_found_body()).take(
            encode_utf8("HTTP/1.1 404 Not Found"@).len() as int,
        ) == encode_utf8("HTTP/1.1 404 Not Found"@),
        exists|i: int|
            0 <= i && i + encode_utf8("File Not Found"@).len() <= not_found_body().len()
                && #[trigger] not_found_body().subrange(
                i,
                i + encode_utf8("File Not Found"@).len() as int,
            ) == encode_utf8("File Not Found"@),
{
    let resp = not_found_head() + not_found_body();
    let status = encode_utf8("HTTP/1.1 404 Not Found"@);
    assert(resp.take(status.len() as int) =~= status);
    let i = encode_utf8("<h1> Error: "@).len() as int;
    let phrase = encode_utf8("File Not Found"@);
    assert(not_found_body().subrange(i, i + phrase.len() as int) =~= phrase);
}

} // verus!
