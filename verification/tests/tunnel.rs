//! Unit tests for the tunnel core: connection routing, the connection table,
//! batching, partial writes and the frames of a connection.

use bytes::{Bytes, BytesMut};
use wormhole::protocol::{self, Frame, HDR, MAX_PAYLOAD, PIPE_BATCH};
use wormhole::tunnel::{
    self, Accepted, ConnTable, DataStep, Outbound, Tunnel, WriteBatch, WriterStep, HIGH_WATER,
    MAX_CONNS,
};

#[test]
fn connections_are_pinned_to_a_channel() {
    let t = Tunnel::new(vec!["c0", "c1", "c2"], "ctl");
    assert_eq!(t.n, 3);
    assert_eq!(*t.data_sender(0), "c0");
    assert_eq!(*t.data_sender(7), "c1");
    assert_eq!(*t.data_sender(65535), "c0");
    assert_eq!(t.control_out, "ctl");
    let one = Tunnel::new(vec!["only"], "ctl");
    assert_eq!(*one.data_sender(12345), "only");
}

#[test]
fn accept_registers_and_announces() {
    let mut table: ConnTable<&str> = ConnTable::new();
    assert_eq!(tunnel::FIRST_ID, 1);
    let mut next = tunnel::FIRST_ID;
    let r = tunnel::server_on_accept(&mut table, &mut next, "buf", "10.0.0.5".into(), 80);
    assert_eq!(
        r,
        Accepted::Announce {
            id: 1,
            frame: Frame::New { id: 1, local_host: "10.0.0.5".into(), local_port: 80 },
        }
    );
    assert_eq!(next, 2);
    assert_eq!(table.get(1), Some(&"buf"));
    assert_eq!(table.get(2), None);
    assert_eq!(table.len(), 1);
    let r = tunnel::server_on_accept(&mut table, &mut next, "buf2", "10.0.0.5".into(), 80);
    assert!(matches!(r, Accepted::Announce { id: 2, .. }));
}

#[test]
fn accept_drops_the_wrapped_id() {
    let mut table: ConnTable<u8> = ConnTable::default();
    let mut next = u16::MAX;
    let r = tunnel::server_on_accept(&mut table, &mut next, 1, "h".into(), 1);
    assert!(matches!(r, Accepted::Announce { id: 65535, .. }));
    assert_eq!(next, 0);
    let r = tunnel::server_on_accept(&mut table, &mut next, 2, "h".into(), 1);
    assert_eq!(r, Accepted::Wrapped);
    assert_eq!(next, 1);
    assert_eq!(table.len(), 1);
}

#[test]
fn accept_drops_at_capacity() {
    let mut table: ConnTable<()> = ConnTable::new();
    let mut next = 1u16;
    for _ in 0..MAX_CONNS {
        let r = tunnel::server_on_accept(&mut table, &mut next, (), "h".into(), 1);
        assert!(matches!(r, Accepted::Announce { .. }));
    }
    let r = tunnel::server_on_accept(&mut table, &mut next, (), "h".into(), 1);
    assert_eq!(r, Accepted::AtCapacity);
    assert_eq!(table.len(), MAX_CONNS);
    // the id is used up all the same
    assert_eq!(next as usize, MAX_CONNS + 2);
    table.remove(5);
    let r = tunnel::server_on_accept(&mut table, &mut next, (), "h".into(), 1);
    assert!(matches!(r, Accepted::Announce { id: 16386, .. }));
}

#[test]
fn a_failed_dial_is_closed_on_the_control_channel() {
    let mut table = ConnTable::new();
    table.register(4, 'x');
    table.register(5, 'y');
    assert_eq!(tunnel::client_on_new(&mut table, 4, true), None);
    assert_eq!(table.len(), 2);
    assert_eq!(tunnel::client_on_new(&mut table, 4, false), Some(Frame::Close(4)));
    assert_eq!(table.get(4), None);
    assert_eq!(table.get(5), Some(&'y'));
    assert_eq!(tunnel::dial_text("10.0.0.5", 5432), "10.0.0.5:5432");
}

#[test]
fn data_frames_are_demuxed() {
    let mut table: ConnTable<&str> = ConnTable::new();
    // before its NEW, DATA has nowhere to go
    let data = Bytes::from_static(b"abc");
    let r = tunnel::on_data_frame(&mut table, Frame::Data(7, data.clone()), true, || ("o", "i"));
    assert!(matches!(r, DataStep::Unregistered { id: 7 }));
    // the server ignores NEW
    let new = || Frame::New { id: 7, local_host: "h".into(), local_port: 9 };
    let r = tunnel::on_data_frame(&mut table, new(), false, || ("o", "i"));
    assert!(matches!(r, DataStep::Done));
    assert_eq!(table.len(), 0);
    // the client registers it
    match tunnel::on_data_frame(&mut table, new(), true, || ("o", "i")) {
        DataStep::Dial { id, local_host, local_port, inbox } => {
            assert_eq!((id, local_host.as_str(), local_port, inbox), (7, "h", 9, "i"));
        }
        _ => panic!("expected Dial"),
    }
    assert_eq!(table.get(7), Some(&"o"));
    match tunnel::on_data_frame(&mut table, Frame::Data(7, data.clone()), true, || ("p", "j")) {
        DataStep::Deliver { id, data: d } => {
            assert_eq!(id, 7);
            assert_eq!(d, data);
        }
        _ => panic!("expected Deliver"),
    }
    let r = tunnel::on_data_frame(&mut table, Frame::Ping(1), true, || ("p", "j"));
    assert!(matches!(r, DataStep::Done));
    assert_eq!(table.get(7), Some(&"o"));
    let r = tunnel::on_data_frame(&mut table, Frame::Close(7), true, || ("p", "j"));
    assert!(matches!(r, DataStep::Done));
    assert_eq!(table.get(7), None);
}

#[test]
fn control_frames_are_answered() {
    let mut table = ConnTable::new();
    table.register(1, ());
    assert_eq!(tunnel::on_control_frame(&mut table, &Frame::Ping(77)), Some(Frame::Pong(77)));
    assert_eq!(tunnel::on_control_frame(&mut table, &Frame::Pong(77)), None);
    assert_eq!(table.len(), 1);
    assert_eq!(tunnel::on_control_frame(&mut table, &Frame::Close(1)), None);
    assert_eq!(table.len(), 0);
    table.register(1, ());
    table.register(2, ());
    table.clear();
    assert_eq!(table.len(), 0);
}

#[test]
fn liveness_is_strict() {
    assert_eq!(tunnel::liveness(45_100, 100, tunnel::LIVENESS_DEADLINE), None);
    assert_eq!(tunnel::liveness(45_101, 100, tunnel::LIVENESS_DEADLINE), Some(45_001));
    assert_eq!(tunnel::liveness(5, 100, 0), None);
    assert_eq!(tunnel::LIVENESS_CHECK, 5_000);
}

#[test]
fn a_batch_stops_at_the_high_water_mark() {
    let mut buf = BytesMut::new();
    assert!(tunnel::batch_frame(&mut buf, &Frame::Close(3)));
    assert_eq!(buf.to_vec(), vec![6, 0, 2, 0, 3]);
    let big = Frame::Data(1, Bytes::from(vec![0u8; MAX_PAYLOAD]));
    let mut n = 0;
    while tunnel::batch_frame(&mut buf, &big) {
        n += 1;
    }
    assert_eq!(n, 3);
    assert_eq!(buf.len(), 5 + 4 * (HDR + 65535));
    assert!(buf.len() >= HIGH_WATER);
}

#[test]
fn partial_writes_lose_nothing() {
    let parts: Vec<&[u8]> = vec![b"abc", b"", b"defg", b"h"];
    let lens: Vec<usize> = parts.iter().map(|p| p.len()).collect();
    for step in 1..9usize {
        let mut consumed = vec![0usize; parts.len()];
        let mut written: Vec<u8> = Vec::new();
        loop {
            let todo = tunnel::unsent(&lens, &consumed);
            if todo.is_empty() {
                break;
            }
            let mut left: Vec<u8> = Vec::new();
            for (i, o) in &todo {
                left.extend_from_slice(&parts[*i][*o..]);
            }
            let n = step.min(left.len());
            written.extend_from_slice(&left[..n]);
            tunnel::mark_written(&lens, &mut consumed, n);
        }
        assert_eq!(written, b"abcdefgh");
        assert_eq!(consumed, lens);
    }
}

#[test]
fn unsent_names_the_first_unwritten_byte() {
    let lens = vec![3, 2, 4];
    assert_eq!(tunnel::unsent(&lens, &vec![0, 0, 0]), vec![(0, 0), (1, 0), (2, 0)]);
    let mut consumed = vec![0, 0, 0];
    tunnel::mark_written(&lens, &mut consumed, 4);
    assert_eq!(consumed, vec![3, 1, 0]);
    assert_eq!(tunnel::unsent(&lens, &consumed), vec![(1, 1), (2, 0)]);
    tunnel::mark_written(&lens, &mut consumed, 0);
    assert_eq!(consumed, vec![3, 1, 0]);
    // more than there was to write: all is written
    tunnel::mark_written(&lens, &mut consumed, 100);
    assert_eq!(consumed, lens);
    assert!(tunnel::unsent(&lens, &consumed).is_empty());
}

#[test]
fn data_is_cut_into_frames() {
    assert!(tunnel::data_frames(1, &Bytes::new()).is_empty());
    let data: Vec<u8> = (0..2 * MAX_PAYLOAD + 5).map(|i| (i % 249) as u8).collect();
    let frames = tunnel::data_frames(9, &Bytes::from(data.clone()));
    let mut sizes = Vec::new();
    let mut all = Vec::new();
    for f in &frames {
        match f {
            Frame::Data(id, d) => {
                assert_eq!(*id, 9);
                assert!(f.fits());
                sizes.push(d.len());
                all.extend_from_slice(d);
            }
            _ => panic!("expected Data"),
        }
    }
    assert_eq!(sizes, vec![MAX_PAYLOAD, MAX_PAYLOAD, 5]);
    assert_eq!(all, data);
    assert_eq!(tunnel::data_frames(1, &Bytes::from(vec![0u8; MAX_PAYLOAD])).len(), 1);
}

#[test]
fn a_write_batch_gathers_up_to_its_limit() {
    let mut batch = WriteBatch::new();
    assert!(batch.push(Bytes::from_static(b"abc")));
    assert!(batch.push(Bytes::from(vec![0u8; PIPE_BATCH - 4])));
    assert!(!batch.push(Bytes::from_static(b"x")));
    assert_eq!(batch.size, PIPE_BATCH);
    assert_eq!(batch.lens(), vec![3, PIPE_BATCH - 4, 1]);
}

#[test]
fn close_follows_the_last_byte() {
    let mut out = Outbound::new(3);
    assert_eq!(
        out.on_read(Some(Bytes::from_static(b"hi"))),
        vec![Frame::Data(3, Bytes::from_static(b"hi"))]
    );
    assert!(out.open);
    assert_eq!(out.on_read(Some(Bytes::new())), vec![Frame::Close(3)]);
    assert!(!out.open);
    let mut out = Outbound::new(4);
    assert_eq!(out.on_read(None), vec![Frame::Close(4)]);
    let mut out = Outbound::new(5);
    assert_eq!(out.on_send_failed(), vec![Frame::Close(5)]);
    assert!(!out.open);
}

/// From one end to the other: two connections share a channel, and the bytes
/// arrive in arbitrary pieces.
#[test]
fn bytes_come_out_in_order() {
    let mut a = Outbound::new(1);
    let mut b = Outbound::new(3);
    let mut frames = vec![
        Frame::New { id: 1, local_host: "h".into(), local_port: 1 },
        Frame::New { id: 3, local_host: "h".into(), local_port: 2 },
    ];
    frames.extend(a.on_read(Some(Bytes::from_static(b"one "))));
    frames.extend(b.on_read(Some(Bytes::from_static(b"ONE "))));
    frames.extend(a.on_read(Some(Bytes::from_static(b"two"))));
    frames.extend(a.on_read(None));
    frames.extend(b.on_read(Some(Bytes::from_static(b"TWO"))));
    frames.extend(b.on_read(None));
    let mut wire = BytesMut::new();
    for f in &frames {
        protocol::encode(&mut wire, f);
    }
    for step in [1usize, 2, 5, 1000] {
        let mut table: ConnTable<()> = ConnTable::new();
        let mut got = (Vec::new(), Vec::new());
        let mut buf = BytesMut::new();
        for piece in wire.chunks(step) {
            buf.extend_from_slice(piece);
            for frame in protocol::drain(&mut buf) {
                match tunnel::on_data_frame(&mut table, frame, true, || ((), ())) {
                    DataStep::Deliver { id: 1, data } => got.0.extend_from_slice(&data),
                    DataStep::Deliver { data, .. } => got.1.extend_from_slice(&data),
                    DataStep::Unregistered { .. } => panic!("lost"),
                    _ => {}
                }
            }
        }
        assert_eq!(got.0, b"one two");
        assert_eq!(got.1, b"ONE TWO");
        assert_eq!(table.len(), 0);
    }
}

#[test]
fn the_writer_finishes_its_batch_and_stops() {
    use_step(false, 0, None, WriterStep::Take);
    use_step(true, 0, None, WriterStep::Stop);
    // with a batch in hand the death signal waits
    use_step(true, 5, None, WriterStep::Gather);
    use_step(false, HIGH_WATER - 1, None, WriterStep::Gather);
    use_step(true, HIGH_WATER, None, WriterStep::Flush);
    // once it is written
    use_step(false, 0, Some(true), WriterStep::Take);
    use_step(true, 0, Some(true), WriterStep::Stop);
    use_step(false, 7, Some(false), WriterStep::Stop);
}

fn use_step(dead: bool, batched: usize, wrote: Option<bool>, expected: WriterStep) {
    assert_eq!(tunnel::writer_step(dead, batched, wrote), expected);
}

/// A writer that is told of the death between two batches leaves the rest of
/// the queue for the next attach; a write that fails costs one batch.
#[test]
fn the_queue_survives_the_writer() {
    let mut queue: Vec<Frame> = (1..6u32).map(Frame::Ping).collect();
    let mut read = Vec::new();
    // per attach: how many batches of two frames get through, and how it ends
    for (batches, fails) in [(1, false), (0, true), (1, false)] {
        let mut buf = BytesMut::new();
        let mut wire = BytesMut::new();
        let mut in_batch = 0;
        let mut done = 0;
        let mut wrote = None;
        loop {
            let dead = done == batches && !fails;
            let step = tunnel::writer_step(dead, buf.len(), wrote.take());
            let ready = !queue.is_empty() && in_batch < 2;
            match step {
                WriterStep::Stop => break,
                WriterStep::Take | WriterStep::Gather if ready => {
                    tunnel::batch_frame(&mut buf, &queue.remove(0));
                    in_batch += 1;
                }
                WriterStep::Take => break,
                _ => {
                    let ok = done < batches;
                    if ok {
                        wire.extend_from_slice(&buf);
                        buf.clear();
                        done += 1;
                        in_batch = 0;
                    } else {
                        // cut in the middle of its first frame
                        wire.extend_from_slice(&buf[..4]);
                    }
                    wrote = Some(ok);
                }
            }
        }
        read.extend(protocol::drain(&mut wire));
    }
    assert!(queue.is_empty());
    assert_eq!(read, vec![Frame::Ping(1), Frame::Ping(2), Frame::Ping(5)]);
}
