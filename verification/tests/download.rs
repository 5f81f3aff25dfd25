//! End-to-end scenarios over a simulated transport: the same loop the
//! surrounding program runs, with the network replaced by an in-memory
//! resource.

use range_fetch::errors::DownloadError;
use range_fetch::planner::PartialRangeIterator;
use range_fetch::protocol::check_range_status;
use range_fetch::protocol::content_length_from_header;
use range_fetch::protocol::range_header_value;

/// What the simulated server does with each ranged request.
enum Fault {
    Honest,
    /// Ignore the range selector and answer 200 with the whole body.
    FullContent,
    /// Drop the connection.
    Disconnect,
}

/// Runs the download loop against an in-memory resource, returning
/// the outcome and how many ranged fetches were issued.
fn run_download(
    content: &[u8],
    length_header: Option<&[u8]>,
    chunk: u64,
    fault: Fault,
) -> (Result<Vec<u8>, DownloadError>, usize) {
    let mut fetches = 0;

    // metadata probe: one length header consultation
    let total = match content_length_from_header(length_header) {
        Ok(total) => total,
        Err(e) => return (Err(e), fetches),
    };

    let mut it = match PartialRangeIterator::new(0, total, chunk) {
        Ok(it) => it,
        Err(e) => return (Err(e), fetches),
    };

    let mut sink: Vec<u8> = Vec::new();
    while let Some((lo, hi)) = it.next() {
        let header = range_header_value(lo, hi);
        assert!(header.starts_with(b"bytes="));
        fetches += 1;

        // the simulated server answers the ranged request
        let (status, body): (u16, &[u8]) = match fault {
            Fault::Honest => (206, &content[lo as usize..hi as usize]),
            Fault::FullContent => (200, content),
            Fault::Disconnect => return (Err(DownloadError::Transport), fetches),
        };

        if let Err(e) = check_range_status(status) {
            return (Err(e), fetches);
        }
        sink.extend_from_slice(body);
    }
    (Ok(sink), fetches)
}

#[test]
fn downloads_25_bytes_in_three_fetches() {
    let content: Vec<u8> = (0..25).collect();
    let (result, fetches) = run_download(&content, Some(b"25"), 10, Fault::Honest);
    let sink = result.unwrap();
    assert_eq!(fetches, 3);
    assert_eq!(sink.len(), 25);
    assert_eq!(sink, content);
}

#[test]
fn downloads_10_bytes_in_one_fetch() {
    let content: Vec<u8> = (0..10).collect();
    let (result, fetches) = run_download(&content, Some(b"10"), 10, Fault::Honest);
    let sink = result.unwrap();
    assert_eq!(fetches, 1);
    assert_eq!(sink.len(), 10);
    assert_eq!(sink, content);
}

#[test]
fn status_200_aborts_before_any_further_range() {
    let content: Vec<u8> = (0..25).collect();
    let (result, fetches) = run_download(&content, Some(b"25"), 10, Fault::FullContent);
    assert_eq!(result, Err(DownloadError::Protocol { status: 200 }));
    assert_eq!(fetches, 1, "the download must stop at the first bad status");
}

#[test]
fn missing_length_header_aborts_before_any_fetch() {
    let content: Vec<u8> = (0..25).collect();
    let (result, fetches) = run_download(&content, None, 10, Fault::Honest);
    assert_eq!(result, Err(DownloadError::MissingLengthHeader));
    assert_eq!(fetches, 0);
}

#[test]
fn transport_failure_aborts_the_whole_download() {
    let content: Vec<u8> = (0..25).collect();
    let (result, fetches) = run_download(&content, Some(b"25"), 10, Fault::Disconnect);
    assert_eq!(result, Err(DownloadError::Transport));
    assert_eq!(fetches, 1);
}
