use netconf_client::framer::{FrameStatus, Framer};

const REPLY: &str = "<rpc-reply message-id=\"101\"><ok/></rpc-reply>]]>]]>";

fn feed_in_pieces(stream: &[u8], sizes: &[usize]) -> (FrameStatus, Vec<u8>) {
    let mut framer = Framer::new();
    let mut pos = 0;
    let mut status = FrameStatus::Pending;
    for size in sizes {
        let end = (pos + size).min(stream.len());
        status = framer.feed(&stream[pos..end], false);
        pos = end;
        if status != FrameStatus::Pending {
            break;
        }
    }
    (status, framer.into_message())
}

#[test]
fn framing_whole_message_in_one_read() {
    let (status, message) = feed_in_pieces(REPLY.as_bytes(), &[REPLY.len()]);
    assert_eq!(status, FrameStatus::Complete);
    assert_eq!(message, REPLY.as_bytes().to_vec());
}

#[test]
fn framing_same_message_for_any_cut() {
    let cuts: [&[usize]; 4] = [&[1; 64], &[3, 5, 7, 11, 13, 17, 19], &[45, 1, 1, 1, 1, 1, 1], &[46, 5]];
    for sizes in cuts.iter() {
        let (status, message) = feed_in_pieces(REPLY.as_bytes(), sizes);
        assert_eq!(status, FrameStatus::Complete);
        assert_eq!(message, REPLY.as_bytes().to_vec());
    }
}

#[test]
fn framing_chunked_end_marker() {
    let stream = b"\n#5\nhello\n##";
    let (status, message) = feed_in_pieces(stream, &[4, 4, 4]);
    assert_eq!(status, FrameStatus::Complete);
    assert_eq!(message, stream.to_vec());
}

#[test]
fn framing_zero_length_read_exhausts() {
    let mut framer = Framer::new();
    assert_eq!(framer.feed(b"<rpc-reply>", false), FrameStatus::Pending);
    assert_eq!(framer.feed(b"", false), FrameStatus::Exhausted);
    assert_eq!(framer.message().clone(), b"<rpc-reply>".to_vec());
}

#[test]
fn framing_end_of_stream_exhausts() {
    let mut framer = Framer::new();
    assert_eq!(framer.feed(b"<rpc-reply>", true), FrameStatus::Exhausted);
}

#[test]
fn framing_marker_wins_over_end_of_stream() {
    let mut framer = Framer::new();
    assert_eq!(framer.feed(b"<ok/>]]>]]>", true), FrameStatus::Complete);
}

#[test]
fn framing_marker_not_at_end_is_pending() {
    let mut framer = Framer::new();
    assert_eq!(framer.feed(b"]]>]]> tail", false), FrameStatus::Pending);
}

#[test]
fn framing_marker_inside_a_read_is_ignored() {
    let (status, message) = feed_in_pieces(b"<a>]]>]]><b/>]]>]]>", &[12, 8]);
    assert_eq!(status, FrameStatus::Complete);
    assert_eq!(message, b"<a>]]>]]><b/>]]>]]>".to_vec());
}
