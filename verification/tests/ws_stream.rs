use codevar_wsocket::ws_ids::WsCloseCode;
use codevar_wsocket::ws_message::WsMessage;
use codevar_wsocket::ws_stream::{AppBuffer, StreamDelivery, stream_delivery};

#[test]
fn data_messages_become_stream_bytes_and_control_messages_do_not() {
    assert_eq!(stream_delivery(WsMessage::text("héllo")), StreamDelivery::Bytes("héllo".as_bytes().to_vec()));
    assert_eq!(stream_delivery(WsMessage::binary(vec![0, 255, 7])), StreamDelivery::Bytes(vec![0, 255, 7]));
    assert_eq!(stream_delivery(WsMessage::Ping(vec![1])), StreamDelivery::Skip);
    assert_eq!(stream_delivery(WsMessage::Pong(vec![])), StreamDelivery::Skip);
    assert_eq!(stream_delivery(WsMessage::close(WsCloseCode::Normal, "bye")), StreamDelivery::Closed);
}

#[test]
fn app_buffer_hands_out_bytes_in_reader_sized_pieces() {
    let mut b = AppBuffer::new();
    assert!(b.is_drained());
    assert_eq!(b.take(8), Vec::<u8>::new());
    b.refill((1u8..=10).collect());
    assert!(!b.is_drained());
    assert_eq!(b.take(4), vec![1, 2, 3, 4]);
    assert_eq!(b.take(4), vec![5, 6, 7, 8]);
    assert_eq!(b.take(4), vec![9, 10]);
    assert!(b.is_drained());
    b.refill(vec![42]);
    assert_eq!(b.take(0), Vec::<u8>::new());
    assert_eq!(b.take(usize::MAX), vec![42]);
    assert!(b.is_drained());
}

#[test]
fn empty_message_reads_as_nothing() {
    let mut b = AppBuffer::new();
    b.refill(Vec::new());
    assert!(b.is_drained());
    assert_eq!(b.take(16), Vec::<u8>::new());
}
