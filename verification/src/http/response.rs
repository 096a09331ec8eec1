//! The response builder: status line, headers and body, in that order, into
//! one buffer that is ready to be sent when the body is in.

use crate::bytes::{
    append, decimal_value, lemma_padded_round_trip, padded_digits, pow10, COLON, CR, EQUALS, LF, SP,
    ZERO,
};
use crate::http::types::{StatusCode, Version};
use crate::http::write::{lemma_padded_digit, number_to_bytes, BodyWriter, WriteBuffer};
use crate::limits::RespLimits;
use vstd::prelude::*;
use vstd::string::StringSliceAdditionalSpecFns;

verus! {

/// How far a response has been built.
#[derive(Debug, Clone, Copy, PartialEq, Eq, Structural)]
pub enum ResponseState {
    /// Nothing has been written.
    Clean,
    /// The status line has been written; headers may follow.
    Headers,
    /// The response is complete.
    Complete,
}

/// The token that a finished response gives back: whoever holds one has
/// completed a response.
#[derive(Debug)]
pub struct Handled {
    done: (),
}

/// The value of the `connection` header that a response needs, if it needs
/// one: HTTP/1.1 is kept alive and HTTP/1.0 is closed unless the header says
/// otherwise.
pub open spec fn connection_value(version: Version, keep_alive: bool) -> Option<&'static str> {
    match (version, keep_alive) {
        (Version::Http11, true) => None,
        (Version::Http11, false) => Some("close"),
        (Version::Http10, true) => Some("keep-alive"),
        (Version::Http10, false) => Some("close"),
        (Version::Http09, _) => None,
    }
}

/// One header line: name, colon, space, value and the line break.
pub open spec fn header_line(name: Seq<u8>, value: Seq<u8>) -> Seq<u8> {
    name + seq![COLON, SP] + value + seq![CR, LF]
}

/// The `connection` header line that a response needs; empty where it needs
/// none.
pub open spec fn connection_line(version: Version, keep_alive: bool) -> Seq<u8> {
    match connection_value(version, keep_alive) {
        Some(value) => header_line("connection".spec_bytes(), value.spec_bytes()),
        None => Seq::empty(),
    }
}

/// What stands between the headers and a body of `body_len` bytes: the
/// `connection` header where needed, `content-length` with the length in a
/// field of ten digits, and the blank line.
pub open spec fn framing(version: Version, keep_alive: bool, body_len: nat) -> Seq<u8> {
    connection_line(version, keep_alive) + "content-length: ".spec_bytes() + padded_digits(
        body_len,
        10,
    ) + seq![CR, LF, CR, LF]
}

/// The items with `split` between each two of them.
pub open spec fn joined(items: Seq<Seq<u8>>, split: Seq<u8>) -> Seq<u8>
    decreases items.len(),
{
    if items.len() == 0 {
        Seq::empty()
    } else if items.len() == 1 {
        items[0]
    } else {
        joined(items.drop_last(), split) + split + items.last()
    }
}

/// The bytes of each value of a list.
pub open spec fn bytes_of<V: WriteBuffer>(values: Seq<V>) -> Seq<Seq<u8>> {
    Seq::new(values.len(), |i: int| values[i].bytes())
}

/// One parameter of a header: the key, and `=` with the value where there is
/// one.
pub open spec fn param<K: WriteBuffer, V: WriteBuffer>(p: (K, Option<V>)) -> Seq<u8> {
    match p.1 {
        Some(value) => p.0.bytes() + seq![EQUALS] + value.bytes(),
        None => p.0.bytes(),
    }
}

/// The bytes of each parameter of a list.
pub open spec fn params_of<K: WriteBuffer, V: WriteBuffer>(params: Seq<(K, Option<V>)>) -> Seq<
    Seq<u8>,
> {
    Seq::new(params.len(), |i: int| param(params[i]))
}

/// The word that an HTTP/0.9+ status message begins with, by the class of
/// the status.
pub open spec fn class_prefix(code: u16) -> &'static str {
    if 400 <= code <= 499 {
        "CLIENT_ERROR:"
    } else if 500 <= code <= 599 {
        "SERVER_ERROR:"
    } else if 300 <= code <= 399 {
        "REDIRECT:"
    } else if 200 <= code <= 299 {
        "SUCCESS:"
    } else if 100 <= code <= 199 {
        "INFO:"
    } else {
        "?:"
    }
}

/// A response under construction.
///
/// An HTTP/1.x response takes one call of `status`, then any number of
/// header calls, then one call of `body` or `body_with`. An HTTP/0.9+
/// response takes one call of a method whose name begins with `http09`.
#[derive(Debug)]
pub struct Response {
    /// The bytes written so far.
    pub buffer: Vec<u8>,
    /// The version that the response is written for.
    pub version: Version,
    /// Whether the connection stays open after this response.
    pub keep_alive: bool,
    /// Where the field of `content-length` begins, once a body is framed.
    pub posit_length: usize,
    /// Where the body begins, once a body is framed.
    pub start_body: usize,
    /// How far the response has been built.
    pub state: ResponseState,
}

impl Response {
    /// The bytes written so far.
    pub open spec fn view(&self) -> Seq<u8> {
        self.buffer@
    }

    /// How far the response has been built.
    pub open spec fn spec_state(&self) -> ResponseState {
        self.state
    }

    /// Where the body begins; `0` unless `body` or `body_with` completed the
    /// response.
    pub open spec fn body_start(&self) -> int {
        self.start_body as int
    }

    /// What the builder keeps: the two marks are `0` until a body is framed,
    /// and then the length field and the blank line stand right before the
    /// body, with the length of the body in the field.
    pub open spec fn wf(&self) -> bool {
        &&& self.state !is Complete ==> self.start_body == 0 && self.posit_length == 0
        &&& self.state is Complete && self.start_body > 0 ==> {
            &&& self.posit_length + 14 == self.start_body
            &&& self.start_body <= self.buffer@.len()
            &&& self.buffer@.subrange(self.posit_length as int, self.posit_length + 10)
                == padded_digits((self.buffer@.len() - self.start_body) as nat, 10)
            &&& self.buffer@.subrange(self.posit_length + 10, self.start_body as int) == seq![
                CR,
                LF,
                CR,
                LF,
            ]
        }
    }

    /// Whether the response is as `new` makes it: nothing written, for
    /// HTTP/1.1, keeping the connection alive.
    pub open spec fn is_fresh(&self) -> bool {
        &&& self.buffer@ == Seq::<u8>::empty()
        &&& self.version == Version::Http11
        &&& self.keep_alive
        &&& self.posit_length == 0
        &&& self.start_body == 0
        &&& self.state is Clean
    }

    /// The response with `keep_alive` off and all else as it is.
    pub open spec fn closed(self) -> Response {
        Response { keep_alive: false, ..self }
    }

    /// An empty response for HTTP/1.1 that keeps the connection alive.
    pub fn new(limits: &RespLimits) -> (r: Self)
        ensures
            r.is_fresh(),
            r.wf(),
    {
        Self {
            buffer: Vec::with_capacity(limits.default_capacity),
            version: Version::Http11,
            keep_alive: true,
            posit_length: 0,
            start_body: 0,
            state: ResponseState::Clean,
        }
    }

    /// Makes the response what `new` returns. A buffer that has grown beyond
    /// `max_capacity` is replaced by one of `default_capacity`; a smaller one
    /// is emptied and kept.
    pub fn reset(&mut self, limits: &RespLimits)
        ensures
            final(self).is_fresh(),
            final(self).wf(),
    {
        if outgrown(capacity_of(&self.buffer), limits) {
            self.buffer = Vec::with_capacity(limits.default_capacity);
        } else {
            self.buffer.clear();
        }
        self.version = Version::Http11;
        self.keep_alive = true;
        self.posit_length = 0;
        self.start_body = 0;
        self.state = ResponseState::Clean;
    }

    /// The bytes written so far.
    pub fn buffer(&self) -> (r: &Vec<u8>)
        ensures
            r@ == self@,
    {
        &self.buffer
    }

    /// How far the response has been built.
    pub fn state(&self) -> (r: ResponseState)
        ensures
            r == self.spec_state(),
    {
        self.state
    }

    /// Has the connection closed after this response.
    pub fn close(&mut self) -> (r: &mut Self)
        requires
            old(self).spec_state() !is Complete,
        ensures
            *final(self) == *final(r),
            *r == old(self).closed(),
            !r.keep_alive,
            r.version == old(self).version,
            r@ == old(self)@,
            r.spec_state() == old(self).spec_state(),
            old(self).wf() ==> r.wf(),
    {
        self.keep_alive = false;
        self
    }

    /// Writes the status line.
    pub fn status(&mut self, status: StatusCode) -> (r: &mut Self)
        requires
            old(self).wf(),
            old(self).spec_state() is Clean,
            old(self).version != Version::Http09,
        ensures
            *final(self) == *final(r),
            r.wf(),
            r.spec_state() is Headers,
            r.version == old(self).version,
            r.keep_alive == old(self).keep_alive,
            r@ == old(self)@ + status.first_line(old(self).version),
    {
        status.write_first_line(self.version, &mut self.buffer);
        self.state = ResponseState::Headers;
        self
    }

    /// Writes one header. `content-length` and `connection` are written by
    /// the builder and must not be given here.
    pub fn header<N: WriteBuffer, V: WriteBuffer>(&mut self, name: N, value: V) -> (r: &mut Self)
        requires
            old(self).wf(),
            old(self).spec_state() is Headers,
        ensures
            *final(self) == *final(r),
            r.wf(),
            r.spec_state() is Headers,
            r.version == old(self).version,
            r.keep_alive == old(self).keep_alive,
            r@ == old(self)@ + header_line(name.bytes(), value.bytes()),
    {
        name.write_to(&mut self.buffer);
        self.buffer.push(COLON);
        self.buffer.push(SP);
        value.write_to(&mut self.buffer);
        self.buffer.push(CR);
        self.buffer.push(LF);
        assert(self.buffer@ =~= old(self).buffer@ + header_line(name.bytes(), value.bytes()));
        self
    }

    /// Writes one header whose value is the given values with `split`
    /// between each two of them.
    pub fn header_multi<N: WriteBuffer, S: WriteBuffer, V: WriteBuffer>(
        &mut self,
        name: N,
        split: S,
        values: &[V],
    ) -> (r: &mut Self)
        requires
            old(self).wf(),
            old(self).spec_state() is Headers,
        ensures
            *final(self) == *final(r),
            r.wf(),
            r.spec_state() is Headers,
            r.version == old(self).version,
            r.keep_alive == old(self).keep_alive,
            r@ == old(self)@ + header_line(name.bytes(), joined(bytes_of(values@), split.bytes())),
    {
        name.write_to(&mut self.buffer);
        self.buffer.push(COLON);
        self.buffer.push(SP);
        let ghost head = self.buffer@;
        let ghost items = bytes_of(values@);
        let n: usize = values.len();
        let mut i: usize = 0;
        assert(items.subrange(0, 0) =~= Seq::<Seq<u8>>::empty());
        assert(head + Seq::<u8>::empty() =~= head);
        while i < n
            invariant
                n == values@.len(),
                items == bytes_of(values@),
                i <= n,
                self.buffer@ == head + joined(items.subrange(0, i as int), split.bytes()),
                self.state == old(self).state,
                self.start_body == old(self).start_body,
                self.posit_length == old(self).posit_length,
                self.version == old(self).version,
                self.keep_alive == old(self).keep_alive,
            decreases n - i,
        {
            let ghost so_far = self.buffer@;
            let ghost taken = items.subrange(0, i + 1);
            proof {
                assert(taken.drop_last() =~= items.subrange(0, i as int));
                assert(taken.last() == values@[i as int].bytes());
            }
            if i > 0 {
                split.write_to(&mut self.buffer);
            }
            values[i].write_to(&mut self.buffer);
            proof {
                if i == 0 {
                    assert(items.subrange(0, 0) =~= Seq::<Seq<u8>>::empty());
                    assert(self.buffer@ =~= head + joined(taken, split.bytes()));
                } else {
                    assert(self.buffer@ =~= head + joined(taken, split.bytes()));
                }
            }
            i += 1;
        }
        assert(items.subrange(0, n as int) =~= items);
        self.buffer.push(CR);
        self.buffer.push(LF);
        assert(self.buffer@ =~= old(self).buffer@ + header_line(
            name.bytes(),
            joined(items, split.bytes()),
        ));
        self
    }

    /// Writes one header whose value is the given parameters with `split`
    /// between each two of them. A parameter is a key, followed by `=` and a
    /// value where it has one.
    pub fn header_params<N: WriteBuffer, S: WriteBuffer, K: WriteBuffer, V: WriteBuffer>(
        &mut self,
        name: N,
        split: S,
        params: &[(K, Option<V>)],
    ) -> (r: &mut Self)
        requires
            old(self).wf(),
            old(self).spec_state() is Headers,
        ensures
            *final(self) == *final(r),
            r.wf(),
            r.spec_state() is Headers,
            r.version == old(self).version,
            r.keep_alive == old(self).keep_alive,
            r@ == old(self)@ + header_line(name.bytes(), joined(params_of(params@), split.bytes())),
    {
        name.write_to(&mut self.buffer);
        self.buffer.push(COLON);
        self.buffer.push(SP);
        let ghost head = self.buffer@;
        let ghost items = params_of(params@);
        let n: usize = params.len();
        let mut i: usize = 0;
        assert(items.subrange(0, 0) =~= Seq::<Seq<u8>>::empty());
        assert(head + Seq::<u8>::empty() =~= head);
        while i < n
            invariant
                n == params@.len(),
                items == params_of(params@),
                i <= n,
                self.buffer@ == head + joined(items.subrange(0, i as int), split.bytes()),
                self.state == old(self).state,
                self.start_body == old(self).start_body,
                self.posit_length == old(self).posit_length,
                self.version == old(self).version,
                self.keep_alive == old(self).keep_alive,
            decreases n - i,
        {
            let ghost taken = items.subrange(0, i + 1);
            proof {
                assert(taken.drop_last() =~= items.subrange(0, i as int));
                assert(taken.last() == param(params@[i as int]));
            }
            if i > 0 {
                split.write_to(&mut self.buffer);
            }
            let ghost before_param = self.buffer@;
            params[i].0.write_to(&mut self.buffer);
            match &params[i].1 {
                Some(value) => {
                    self.buffer.push(EQUALS);
                    value.write_to(&mut self.buffer);
                },
                None => {},
            }
            proof {
                assert(self.buffer@ =~= before_param + param(params@[i as int]));
                if i == 0 {
                    assert(items.subrange(0, 0) =~= Seq::<Seq<u8>>::empty());
                }
                assert(self.buffer@ =~= head + joined(taken, split.bytes()));
            }
            i += 1;
        }
        assert(items.subrange(0, n as int) =~= items);
        self.buffer.push(CR);
        self.buffer.push(LF);
        assert(self.buffer@ =~= old(self).buffer@ + header_line(
            name.bytes(),
            joined(items, split.bytes()),
        ));
        self
    }

    /// Writes the body and completes the response: the `connection` header
    /// where the version and `keep_alive` call for one, `content-length`
    /// with the length of the body, the blank line and the body.
    pub fn body<T: WriteBuffer>(&mut self, data: T) -> (h: Handled)
        requires
            old(self).wf(),
            old(self).spec_state() is Headers,
        ensures
            final(self).wf(),
            final(self).spec_state() is Complete,
            final(self).version == old(self).version,
            final(self).keep_alive == old(self).keep_alive,
            final(self)@ == old(self)@ + framing(
                old(self).version,
                old(self).keep_alive,
                data.bytes().len(),
            ) + data.bytes(),
            final(self).body_start() == final(self)@.len() - data.bytes().len(),
            final(self).body_start() > 0,
    {
        self.start_body();
        let ghost framed = self.buffer@;
        data.write_to(&mut self.buffer);
        proof {
            lemma_padded_round_trip(data.bytes().len(), 10);
            assert(self.buffer@.subrange(self.posit_length + 10, self.start_body as int) =~= seq![
                CR,
                LF,
                CR,
                LF,
            ]);
        }
        let h = self.end_body();
        assert(self.buffer@ =~= old(self).buffer@ + framing(
            old(self).version,
            old(self).keep_alive,
            data.bytes().len(),
        ) + data.bytes());
        h
    }

    /// Has `f` write the body and completes the response as `body` does,
    /// with whatever `f` has written as the body.
    pub fn body_with<F: FnOnce(&mut BodyWriter)>(&mut self, f: F) -> (h: Handled)
        requires
            old(self).wf(),
            old(self).spec_state() is Headers,
            forall|w: &mut BodyWriter| w.written@.len() == 0 ==> #[trigger] call_requires(f, (w,)),
        ensures
            final(self).wf(),
            final(self).spec_state() is Complete,
            final(self).version == old(self).version,
            final(self).keep_alive == old(self).keep_alive,
            0 < final(self).body_start() <= final(self)@.len(),
            final(self)@ == old(self)@ + framing(
                old(self).version,
                old(self).keep_alive,
                (final(self)@.len() - final(self).body_start()) as nat,
            ) + final(self)@.skip(final(self).body_start()),
            exists|w: &mut BodyWriter|
                w.written@.len() == 0 && #[trigger] call_ensures(f, (w,), ()) && final(w).written@
                    == final(self)@.skip(final(self).body_start()),
    {
        self.start_body();
        let mut writer = BodyWriter { written: Vec::new() };
        f(&mut writer);
        let ghost body = writer.written@;
        append(&mut self.buffer, writer.written.as_slice());
        proof {
            lemma_padded_round_trip(body.len(), 10);
            assert(self.buffer@.subrange(self.posit_length + 10, self.start_body as int) =~= seq![
                CR,
                LF,
                CR,
                LF,
            ]);
        }
        let h = self.end_body();
        assert(self.buffer@.skip(self.start_body as int) =~= body);
        assert(self.buffer@ =~= old(self).buffer@ + framing(
            old(self).version,
            old(self).keep_alive,
            body.len(),
        ) + body);
        h
    }

    /// Opens the body: writes the `connection` header where one is needed,
    /// then `content-length` with a field of ten zeros, then the blank line.
    fn start_body(&mut self)
        requires
            old(self).wf(),
            old(self).spec_state() is Headers,
        ensures
            final(self).state is Headers,
            final(self).version == old(self).version,
            final(self).keep_alive == old(self).keep_alive,
            final(self).posit_length == old(self).buffer@.len() + connection_line(
                old(self).version,
                old(self).keep_alive,
            ).len() + "content-length: ".spec_bytes().len(),
            final(self).start_body == final(self).posit_length + 14,
            final(self).buffer@ == old(self).buffer@ + connection_line(
                old(self).version,
                old(self).keep_alive,
            ) + "content-length: ".spec_bytes() + Seq::new(10, |i: int| ZERO) + seq![
                CR,
                LF,
                CR,
                LF,
            ],
    {
        match self.connection_header() {
            Some(value) => {
                self.state = ResponseState::Headers;
                append(&mut self.buffer, "connection".as_bytes());
                self.buffer.push(COLON);
                self.buffer.push(SP);
                append(&mut self.buffer, value.as_bytes());
                self.buffer.push(CR);
                self.buffer.push(LF);
                assert(self.buffer@ =~= old(self).buffer@ + connection_line(
                    old(self).version,
                    old(self).keep_alive,
                ));
            },
            None => {
                assert(self.buffer@ =~= old(self).buffer@ + connection_line(
                    old(self).version,
                    old(self).keep_alive,
                ));
            },
        }
        append(&mut self.buffer, "content-length: ".as_bytes());
        let ghost head = self.buffer@;
        self.posit_length = self.buffer.len();
        let mut i: usize = 0;
        while i < 10
            invariant
                i <= 10,
                self.buffer@ == head + Seq::new(i as nat, |k: int| ZERO),
                self.posit_length == head.len(),
                self.state == old(self).state,
                self.version == old(self).version,
                self.keep_alive == old(self).keep_alive,
            decreases 10 - i,
        {
            self.buffer.push(ZERO);
            i += 1;
            assert(self.buffer@ =~= head + Seq::new(i as nat, |k: int| ZERO));
        }
        self.buffer.push(CR);
        self.buffer.push(LF);
        self.buffer.push(CR);
        self.buffer.push(LF);
        self.start_body = self.buffer.len();
        assert(self.buffer@ =~= old(self).buffer@ + connection_line(
            old(self).version,
            old(self).keep_alive,
        ) + "content-length: ".spec_bytes() + Seq::new(10, |i: int| ZERO) + seq![CR, LF, CR, LF]);
    }

    /// Closes the body: writes its length over the field of zeros.
    fn end_body(&mut self) -> (h: Handled)
        requires
            old(self).posit_length + 14 == old(self).start_body,
            old(self).start_body <= old(self).buffer@.len(),
            old(self).buffer@.subrange(old(self).posit_length + 10, old(self).start_body as int)
                == seq![CR, LF, CR, LF],
        ensures
            final(self).wf(),
            final(self).state is Complete,
            final(self).version == old(self).version,
            final(self).keep_alive == old(self).keep_alive,
            final(self).start_body == old(self).start_body,
            final(self).posit_length == old(self).posit_length,
            final(self).buffer@ == old(self).buffer@.subrange(0, old(self).posit_length as int)
                + padded_digits((old(self).buffer@.len() - old(self).start_body) as nat, 10)
                + old(self).buffer@.skip(old(self).posit_length + 10),
    {
        let body_len: usize = self.buffer.len() - self.start_body;
        let (arr, _) = number_to_bytes(body_len as u128);
        let posit: usize = self.posit_length;
        let total: usize = self.buffer.len();
        let ghost before = self.buffer@;
        let ghost field = padded_digits(body_len as nat, 10);
        proof {
            lemma_padded_round_trip(body_len as nat, 10);
            assert forall|k: int| 0 <= k < 10 implies field[k] == arr@[29 + k] by {
                lemma_padded_digit(body_len as nat, 10, (9 - k) as nat);
            }
        }
        let mut k: usize = 0;
        while k < 10
            invariant
                k <= 10,
                total == before.len(),
                posit + 14 <= total,
                self.buffer@.len() == before.len(),
                field.len() == 10,
                forall|j: int| 0 <= j < 10 ==> field[j] == arr@[29 + j],
                forall|j: int| 0 <= j < k ==> self.buffer@[posit + j] == field[j],
                forall|j: int|
                    0 <= j < before.len() && !(posit <= j < posit + k) ==> self.buffer@[j]
                        == before[j],
                self.posit_length == old(self).posit_length,
                self.start_body == old(self).start_body,
                self.version == old(self).version,
                self.keep_alive == old(self).keep_alive,
            decreases 10 - k,
        {
            self.buffer[posit + k] = arr[29 + k];
            k += 1;
        }
        self.state = ResponseState::Complete;
        proof {
            assert(self.buffer@ =~= before.subrange(0, posit as int) + field + before.skip(
                posit + 10,
            ));
            assert(self.buffer@.subrange(posit as int, posit + 10) =~= field);
            assert(self.buffer@.subrange(posit + 10, self.start_body as int) =~= before.subrange(
                posit + 10,
                self.start_body as int,
            ));
        }
        Handled { done: () }
    }

    /// The value of the `connection` header that this response needs, if it
    /// needs one.
    fn connection_header(&self) -> (r: Option<&'static str>)
        ensures
            r == connection_value(self.version, self.keep_alive),
    {
        match (self.version, self.keep_alive) {
            (Version::Http11, true) => None,
            (Version::Http11, false) => Some("close"),
            (Version::Http10, true) => Some("keep-alive"),
            (Version::Http10, false) => Some("close"),
            (Version::Http09, _) => None,
        }
    }

    /// Writes `data` as the whole of an HTTP/0.9+ response.
    pub fn http09<T: WriteBuffer>(&mut self, data: T) -> (h: Handled)
        requires
            old(self).wf(),
            old(self).spec_state() is Clean,
            old(self).version == Version::Http09,
        ensures
            final(self).wf(),
            final(self).spec_state() is Complete,
            final(self).version == old(self).version,
            final(self).keep_alive == old(self).keep_alive,
            final(self).body_start() == 0,
            final(self)@ == old(self)@ + data.bytes(),
    {
        data.write_to(&mut self.buffer);
        self.state = ResponseState::Complete;
        Handled { done: () }
    }

    /// Has `f` write the whole of an HTTP/0.9+ response. Whatever `f` leaves
    /// in the buffer is the response.
    pub fn http09_with<F: FnOnce(&mut Vec<u8>)>(&mut self, f: F) -> (h: Handled)
        requires
            old(self).wf(),
            old(self).spec_state() is Clean,
            old(self).version == Version::Http09,
            forall|b: &mut Vec<u8>| b@ == old(self)@ ==> #[trigger] call_requires(f, (b,)),
        ensures
            final(self).wf(),
            final(self).spec_state() is Complete,
            final(self).version == old(self).version,
            final(self).keep_alive == old(self).keep_alive,
            final(self).body_start() == 0,
            exists|b: &mut Vec<u8>|
                b@ == old(self)@ && #[trigger] call_ensures(f, (b,), ()) && final(b)@
                    == final(self)@,
    {
        f(&mut self.buffer);
        self.state = ResponseState::Complete;
        Handled { done: () }
    }

    /// Writes an HTTP/0.9+ response that reports a status: the word for the
    /// class of the status, its number, its reason phrase and a line break.
    pub fn http09_status(&mut self, status: StatusCode) -> (h: Handled)
        requires
            old(self).wf(),
            old(self).spec_state() is Clean,
            old(self).version == Version::Http09,
        ensures
            final(self).wf(),
            final(self).spec_state() is Complete,
            final(self).version == old(self).version,
            final(self).keep_alive == old(self).keep_alive,
            final(self).body_start() == 0,
            final(self)@ == old(self)@ + class_prefix(status.spec_code()).spec_bytes()
                + status.first_line(Version::Http09),
    {
        append(&mut self.buffer, Self::get_prefix(&status).as_bytes());
        status.write_first_line(Version::Http09, &mut self.buffer);
        self.state = ResponseState::Complete;
        assert(self.buffer@ =~= old(self).buffer@ + class_prefix(status.spec_code()).spec_bytes()
            + status.first_line(Version::Http09));
        Handled { done: () }
    }

    /// Writes an HTTP/0.9+ response that reports a status with a message of
    /// the caller's: the word for the class of the status, its number, the
    /// message and a line break.
    pub fn http09_msg<T: WriteBuffer>(&mut self, status: StatusCode, value: T) -> (h: Handled)
        requires
            old(self).wf(),
            old(self).spec_state() is Clean,
            old(self).version == Version::Http09,
        ensures
            final(self).wf(),
            final(self).spec_state() is Complete,
            final(self).version == old(self).version,
            final(self).keep_alive == old(self).keep_alive,
            final(self).body_start() == 0,
            final(self)@ == old(self)@ + class_prefix(status.spec_code()).spec_bytes()
                + status.code_bytes() + value.bytes() + seq![CR, LF],
    {
        append(&mut self.buffer, Self::get_prefix(&status).as_bytes());
        status.write_code(&mut self.buffer);
        value.write_to(&mut self.buffer);
        self.buffer.push(CR);
        self.buffer.push(LF);
        self.state = ResponseState::Complete;
        assert(self.buffer@ =~= old(self).buffer@ + class_prefix(status.spec_code()).spec_bytes()
            + status.code_bytes() + value.bytes() + seq![CR, LF]);
        Handled { done: () }
    }

    /// The word that an HTTP/0.9+ status message begins with.
    fn get_prefix(status: &StatusCode) -> (r: &'static str)
        ensures
            r == class_prefix(status.spec_code()),
    {
        let code = status.code();
        if 400 <= code && code <= 499 {
            "CLIENT_ERROR:"
        } else if 500 <= code && code <= 599 {
            "SERVER_ERROR:"
        } else if 300 <= code && code <= 399 {
            "REDIRECT:"
        } else if 200 <= code && code <= 299 {
            "SUCCESS:"
        } else if 100 <= code && code <= 199 {
            "INFO:"
        } else {
            "?:"
        }
    }
}

/// Whether a response buffer of the given capacity is not kept for the next
/// response: it has grown beyond `max_capacity`.
pub fn outgrown(capacity: usize, limits: &RespLimits) -> (r: bool)
    ensures
        r == (capacity > limits.max_capacity),
{
    capacity > limits.max_capacity
}

/// Calls `Vec::capacity`, which returns the number of elements that the
/// vector has room for. The number is the allocator's business, so nothing
/// is claimed of it.
#[verifier::external_body]
fn capacity_of(buffer: &Vec<u8>) -> usize {
    buffer.capacity()
}

/// In a response that `body` or `body_with` has completed, the ten digits
/// before the blank line write the number of bytes that follow it, as long
/// as that number has no more than ten digits.
pub proof fn lemma_content_length_is_body_length(r: Response)
    requires
        r.wf(),
        r.spec_state() is Complete,
        r.body_start() > 0,
        r@.len() - r.body_start() < pow10(10),
    ensures
        14 <= r.body_start() <= r@.len(),
        r@.subrange(r.body_start() - 4, r.body_start()) == seq![CR, LF, CR, LF],
        decimal_value(r@.subrange(r.body_start() - 14, r.body_start() - 4)) == r@.len()
            - r.body_start(),
{
    let n = (r@.len() - r.body_start()) as nat;
    lemma_padded_round_trip(n, 10);
    vstd::arithmetic::div_mod::lemma_small_mod(n, pow10(10));
}

/// Closing a response twice leaves it as closing it once does.
pub proof fn lemma_close_is_idempotent(r: Response)
    ensures
        r.closed().closed() == r.closed(),
{
}

} // verus!
