use maker_web::limits::ReqLimits;
use maker_web::Parser;
use std::str::from_utf8;

fn str(value: Option<&[u8]>) -> Option<&str> {
    Some(from_utf8(value?).unwrap())
}

// Search level
#[test]
fn find_slice() {
    let limits = ReqLimits::default().precalculate();
    let mut parser = Parser::from(&limits, b"GET / HTTP/1.1");

    let slice = parser.find_slice(10, b' ').unwrap();
    assert_eq!(slice, b"GET");
    assert_eq!(parser.position, 4);

    let slice = parser.find_slice(10, b' ').unwrap();
    assert_eq!(slice, b"/");

    assert_eq!(parser.find_slice(limits.precalc.buffer + 1, b' '), None);
    assert_eq!(parser.find_slice(0, b' '), None);
}

#[test]
fn find_char() {
    let limits = ReqLimits::default().precalculate();
    let parser = Parser::from(&limits, b"hello world\nnext line");

    assert_eq!(parser.find_char(20, b' '), Some(5));
    assert_eq!(parser.find_char(20, b'\n'), Some(11));
    assert_eq!(parser.find_char(5, b'x'), None);
    assert_eq!(parser.find_char(3, b'o'), None);
}

// Low level
#[test]
fn get_slice() {
    let limits = ReqLimits::default().precalculate();
    let parser = Parser::from(&limits, b"test data here");

    assert_eq!(str(parser.get_slice(0, 4)), Some("test"));
    assert_eq!(str(parser.get_slice(5, 4)), Some("data"));
    assert_eq!(str(parser.get_slice(20, 5)), Some("\0\0\0\0\0"));
    assert_eq!(parser.get_slice(limits.precalc.buffer + 1, 10), None);
}

#[test]
fn get_slice_mut() {
    let limits = ReqLimits::default().precalculate();
    let mut parser = Parser::from(&limits, b"original");

    {
        let slice = parser.get_slice_mut(0, 8).unwrap();
        slice.copy_from_slice(b"modified");
    }

    assert_eq!(parser.get_slice(0, 8), Some(b"modified".as_ref()));
}

#[test]
fn get_slice_static() {
    let limits = ReqLimits::default().precalculate();
    let parser = Parser::from(&limits, b"static data");

    assert_eq!(str(parser.copy_slice(0, 6).as_deref()), Some("static"));
    assert_eq!(str(parser.copy_slice(7, 4).as_deref()), Some("data"));
    assert_eq!(str(parser.copy_slice(20, 5).as_deref()), Some("\0\0\0\0\0"));
    assert_eq!(parser.copy_slice(limits.precalc.buffer + 1, 10), None);
}

#[test]
fn update_position() {
    let limits = ReqLimits::default().precalculate();
    let mut parser = Parser::from(&limits, b"some data");

    let old_pos = parser.update_position(4);
    assert_eq!(old_pos, 0);
    assert_eq!(parser.position, 5);

    let old_pos = parser.update_position(3);
    assert_eq!(old_pos, 5);
    assert_eq!(parser.position, 9);
}

// Other
#[test]
fn sequence_operations() {
    let limits = ReqLimits::default().precalculate();
    let mut parser = Parser::from(&limits, b"GET /api/users HTTP/1.1");

    let method = parser.find_slice(10, b' ').unwrap();
    assert_eq!(method, b"GET");

    let path = parser.find_slice(15, b' ').unwrap();
    assert_eq!(path, b"/api/users");

    let version = parser.copy_slice(parser.position, 8).unwrap();
    assert_eq!(version, b"HTTP/1.1");
}

#[test]
fn slices_at_the_edge_of_the_buffer() {
    let limits = ReqLimits::default().precalculate();
    let mut parser = Parser::from(&limits, b"x");
    let size = limits.precalc.buffer;

    assert_eq!(parser.get_slice(size, 0), Some(b"".as_ref()));
    assert_eq!(parser.get_slice(size - 1, 1), Some(b"\0".as_ref()));
    assert_eq!(parser.get_slice(size, 1), None);
    assert_eq!(parser.get_slice(usize::MAX, 2), None);
    assert!(parser.get_slice_mut(size, 1).is_none());
    assert!(parser.get_slice_mut(usize::MAX, 2).is_none());
    assert_eq!(parser.copy_slice(usize::MAX, usize::MAX), None);
}

#[test]
fn new_parser_is_zeroed() {
    let limits = ReqLimits::default().precalculate();
    let parser = Parser::new(&limits);

    assert_eq!(parser.position, 0);
    assert_eq!(parser.len, 0);
    assert_eq!(parser.buffer.len(), limits.precalc.buffer);
    assert!(parser.buffer.iter().all(|b| *b == 0));
    assert_eq!(parser.received(), b"");
}

#[test]
fn receive_keeps_the_rest_of_the_buffer() {
    let limits = ReqLimits::default().precalculate();
    let mut parser = Parser::from(&limits, b"first request");
    parser.update_position(3);

    parser.receive(b"next");

    assert_eq!(parser.received(), b"next");
    assert_eq!(parser.len, 4);
    assert_eq!(parser.position, 4);
    assert_eq!(str(parser.get_slice(0, 13)), Some("nextt request"));
}
