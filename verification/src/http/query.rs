//! Splitting of URL query strings into key/value pairs, without decoding.

use crate::bytes::{
    append, decimal_digits, find, find_byte, lemma_decimal_round_trip, lemma_find, AMP, EQUALS,
    QUESTION,
};
use crate::http::write::impl_write_buffer_u128;
use std::collections::HashMap;
use vstd::prelude::*;
use vstd::string::StringSliceAdditionalSpecFns;

verus! {

/// Why a query string was not collected.
#[derive(Debug, Clone, Copy, PartialEq, Eq)]
pub enum Error {
    /// The collection already held as many parameters as the limit allows
    /// when one more was found. The field is that limit.
    OverLimit(usize),
    /// The query string holds no byte at all.
    Empty,
}

impl Error {
    /// The message that describes this error, as bytes.
    pub open spec fn message_bytes(self) -> Seq<u8> {
        match self {
            Error::OverLimit(limit) => "Query parameter limit exceeded: limit=".spec_bytes()
                + decimal_digits(limit as nat),
            Error::Empty => "Query string is empty or contains no parameters".spec_bytes(),
        }
    }

    /// The message that describes this error.
    pub fn message(&self) -> (s: String)
        ensures
            vstd::utf8::encode_utf8(s@) == self.message_bytes(),
    {
        match self {
            Error::OverLimit(limit) => {
                let mut bytes: Vec<u8> = Vec::new();
                append(&mut bytes, "Query parameter limit exceeded: limit=".as_bytes());
                let ghost head = bytes@;
                impl_write_buffer_u128(*limit as u128, &mut bytes);
                proof {
                    let digits = decimal_digits(*limit as nat);
                    lemma_decimal_round_trip(*limit as nat);
                    assert(head =~= "Query parameter limit exceeded: limit=".spec_bytes());
                    vstd::utf8::encode_utf8_valid_utf8("Query parameter limit exceeded: limit="@);
                    lemma_digits_are_text(digits);
                    vstd::utf8::valid_utf8_concat(head, digits);
                }
                text_of(bytes)
            },
            Error::Empty => "Query string is empty or contains no parameters".to_string(),
        }
    }
}

/// Digits are valid UTF-8.
proof fn lemma_digits_are_text(digits: Seq<u8>)
    requires
        crate::bytes::all_digits(digits),
    ensures
        vstd::utf8::valid_utf8(digits),
{
    assert(digits.subrange(0, 0) =~= Seq::<u8>::empty());
    assert(vstd::utf8::partial_valid_utf8(digits, 0));
    assert forall|i: int| 0 <= i < digits.len() implies #[trigger]
        vstd::utf8::is_leading_byte_width_1(digits[i]) by {
        assert(crate::bytes::is_digit(digits[i]));
    }
    vstd::utf8::partial_valid_utf8_extend_ascii_block(digits, 0, digits.len() as int);
    assert(digits.subrange(0, digits.len() as int) =~= digits);
}

/// Calls `String::from_utf8`, which makes a `String` of bytes that are
/// valid UTF-8 without changing them.
#[verifier::external_body]
fn text_of(bytes: Vec<u8>) -> (s: String)
    requires
        vstd::utf8::valid_utf8(bytes@),
    ensures
        vstd::utf8::encode_utf8(s@) == bytes@,
{
    match String::from_utf8(bytes) {
        Ok(text) => text,
        Err(_) => String::new(),
    }
}

/// The query string without its optional leading `?`.
pub open spec fn body_of(query: Seq<u8>) -> Seq<u8> {
    if query.len() > 0 && query[0] == QUESTION {
        query.drop_first()
    } else {
        query
    }
}

/// One `key=value` segment, cut at its first `=`. Without `=` the whole
/// segment is the key and the value is empty.
pub open spec fn pair_of(segment: Seq<u8>) -> (Seq<u8>, Seq<u8>) {
    let k = find(segment, EQUALS);
    if k < segment.len() {
        (segment.subrange(0, k), segment.subrange(k + 1, segment.len() as int))
    } else {
        (segment, Seq::empty())
    }
}

/// The pairs of `data`, in order: `data` is cut at every `&`, and each piece
/// is one pair. A trailing `&` opens no further pair.
pub open spec fn pairs_of(data: Seq<u8>) -> Seq<(Seq<u8>, Seq<u8>)>
    decreases data.len(),
{
    if data.len() == 0 {
        Seq::empty()
    } else {
        proof {
            lemma_find(data, AMP);
        }
        let end = find(data, AMP);
        let head = pair_of(data.subrange(0, end));
        if end < data.len() {
            seq![head] + pairs_of(data.subrange(end + 1, data.len() as int))
        } else {
            seq![head]
        }
    }
}

/// The pairs of `data` from byte `start` on.
pub open spec fn pairs_from(data: Seq<u8>, start: int) -> Seq<(Seq<u8>, Seq<u8>)> {
    if 0 <= start < data.len() {
        pairs_of(data.subrange(start, data.len() as int))
    } else {
        Seq::empty()
    }
}

/// A collection that query parameters can be gathered into.
pub trait QueryCollector<'a>: Sized {
    /// Whether this kind of collection keeps every parameter it is given, in
    /// the order of arrival. A map that overwrites equal keys does not, and
    /// nothing is taken for granted of a collection that does not say so.
    open spec fn keeps_order() -> bool {
        false
    }

    /// The parameters held, for a collection that keeps order.
    open spec fn pairs(&self) -> Seq<(Seq<u8>, Seq<u8>)> {
        Seq::empty()
    }

    /// Whether this kind of collection is a map: for each key it holds one
    /// value, the one given last.
    open spec fn is_map() -> bool {
        false
    }

    /// The entries held, for a map.
    open spec fn entries(&self) -> Map<Seq<u8>, Seq<u8>> {
        Map::empty()
    }

    /// Adds one parameter.
    fn add_param(&mut self, key: &'a [u8], value: &'a [u8])
        ensures
            Self::keeps_order() ==> final(self).pairs() == old(self).pairs().push((key@, value@)),
            Self::is_map() ==> final(self).entries() == old(self).entries().insert(key@, value@),
    ;

    /// The number of parameters held.
    fn length(&self) -> (n: usize)
        ensures
            Self::keeps_order() ==> n == self.pairs().len(),
            Self::is_map() ==> n == self.entries().dom().len(),
    ;

    /// An empty collection with room for `capacity` parameters.
    fn with_capacity(capacity: usize) -> (r: Self)
        ensures
            Self::keeps_order() ==> r.pairs() == Seq::<(Seq<u8>, Seq<u8>)>::empty(),
            Self::is_map() ==> r.entries() == Map::<Seq<u8>, Seq<u8>>::empty(),
    ;
}

impl<'a> QueryCollector<'a> for Vec<(&'a [u8], &'a [u8])> {
    open spec fn keeps_order() -> bool {
        true
    }

    open spec fn pairs(&self) -> Seq<(Seq<u8>, Seq<u8>)> {
        Seq::new(self@.len(), |i: int| (self@[i].0@, self@[i].1@))
    }

    fn add_param(&mut self, key: &'a [u8], value: &'a [u8]) {
        self.push((key, value));
        assert(self.pairs() =~= old(self).pairs().push((key@, value@)));
    }

    fn length(&self) -> (n: usize) {
        self.len()
    }

    fn with_capacity(capacity: usize) -> (r: Self) {
        let r: Vec<(&'a [u8], &'a [u8])> = Vec::with_capacity(capacity);
        assert(r.pairs() =~= Seq::<(Seq<u8>, Seq<u8>)>::empty());
        r
    }
}

/// What a map of query parameters holds: for each key its value, both as
/// byte strings.
pub uninterp spec fn map_entries(map: HashMap<&[u8], &[u8]>) -> Map<Seq<u8>, Seq<u8>>;

/// Calls `HashMap::insert`, which maps the key to the value, in place of any
/// value that an equal key was mapped to before. Byte strings are equal as
/// keys when they hold the same bytes.
#[verifier::external_body]
fn map_insert<'a>(map: &mut HashMap<&'a [u8], &'a [u8]>, key: &'a [u8], value: &'a [u8])
    ensures
        map_entries(*final(map)) == map_entries(*old(map)).insert(key@, value@),
{
    map.insert(key, value);
}

/// Calls `HashMap::len`, which returns the number of entries.
#[verifier::external_body]
fn map_len(map: &HashMap<&[u8], &[u8]>) -> (n: usize)
    ensures
        n == map_entries(*map).dom().len(),
{
    map.len()
}

/// Calls `HashMap::with_capacity`, which makes an empty map.
#[verifier::external_body]
fn map_with_capacity<'a>(capacity: usize) -> (r: HashMap<&'a [u8], &'a [u8]>)
    ensures
        map_entries(r).dom() == Set::<Seq<u8>>::empty(),
{
    HashMap::with_capacity(capacity)
}

impl<'a> QueryCollector<'a> for HashMap<&'a [u8], &'a [u8]> {
    open spec fn is_map() -> bool {
        true
    }

    open spec fn entries(&self) -> Map<Seq<u8>, Seq<u8>> {
        map_entries(*self)
    }

    fn add_param(&mut self, key: &'a [u8], value: &'a [u8]) {
        map_insert(self, key, value);
    }

    fn length(&self) -> (n: usize) {
        map_len(self)
    }

    fn with_capacity(capacity: usize) -> (r: Self) {
        let r = map_with_capacity(capacity);
        assert(map_entries(r) =~= Map::<Seq<u8>, Seq<u8>>::empty());
        r
    }
}

/// What a map holds after `Query::parse_into` has offered it the given
/// pairs one by one, and whether it took them all: a pair is taken while the
/// map holds fewer than `limit` entries, and the first pair that is not
/// taken ends the offering.
pub open spec fn gathered(
    entries: Map<Seq<u8>, Seq<u8>>,
    pairs: Seq<(Seq<u8>, Seq<u8>)>,
    limit: int,
) -> (Map<Seq<u8>, Seq<u8>>, bool)
    decreases pairs.len(),
{
    if pairs.len() == 0 {
        (entries, true)
    } else if entries.dom().len() >= limit {
        (entries, false)
    } else {
        gathered(entries.insert(pairs[0].0, pairs[0].1), pairs.drop_first(), limit)
    }
}

/// The parameters that a collection which keeps order holds after
/// `Query::parse_into`: those it held before, followed by the first pairs of
/// the query, as many as fit under `limit`.
pub open spec fn collected(
    before: Seq<(Seq<u8>, Seq<u8>)>,
    query: Seq<u8>,
    limit: int,
) -> Seq<(Seq<u8>, Seq<u8>)> {
    let all = pairs_of(body_of(query));
    let room = if limit > before.len() { limit - before.len() } else { 0 };
    if all.len() <= room {
        before + all
    } else {
        before + all.subrange(0, room)
    }
}

/// What `Query::parse_into` returns for a collection that keeps order and
/// held `held` parameters before.
pub open spec fn outcome(held: int, query: Seq<u8>, limit: usize) -> Result<(), Error> {
    if query.len() == 0 {
        Err(Error::Empty)
    } else if pairs_of(body_of(query)).len() == 0 || held + pairs_of(body_of(query)).len()
        <= limit {
        Ok(())
    } else {
        Err(Error::OverLimit(limit))
    }
}

/// The first pair of a non-empty `data` and where the rest begins.
proof fn lemma_pairs_step(data: Seq<u8>, start: int, end: int, split: int)
    requires
        0 <= start < data.len(),
        start <= split <= end <= data.len(),
        end - start == find(data.subrange(start, data.len() as int), AMP),
        split - start == find(data.subrange(start, end), EQUALS),
    ensures
        pairs_from(data, start) == seq![
            (
                data.subrange(start, split),
                if split < end {
                    data.subrange(split + 1, end)
                } else {
                    Seq::<u8>::empty()
                },
            ),
        ] + pairs_from(data, end + 1),
{
    let rest = data.subrange(start, data.len() as int);
    let segment = rest.subrange(0, end - start);
    assert(segment =~= data.subrange(start, end));
    assert(segment.subrange(0, split - start) =~= data.subrange(start, split));
    if split < end {
        assert(segment.subrange(split - start + 1, segment.len() as int) =~= data.subrange(
            split + 1,
            end,
        ));
    } else {
        assert(segment =~= data.subrange(start, split));
    }
    if end < data.len() {
        assert(rest.subrange(end - start + 1, rest.len() as int) =~= data.subrange(
            end + 1,
            data.len() as int,
        ));
        if end + 1 == data.len() {
            assert(pairs_of(data.subrange(end + 1, data.len() as int)) =~= Seq::empty());
        }
    } else {
        assert(seq![pair_of(segment)] + Seq::<(Seq<u8>, Seq<u8>)>::empty() =~= seq![
            pair_of(segment),
        ]);
    }
}

/// The parser of query strings.
pub struct Query;

impl Query {
    /// Parses `query` into a new collection.
    ///
    /// An empty `query` is refused with `Error::Empty`. For a collection that
    /// keeps order the result holds all pairs of the query, in order, unless
    /// there are more than `limit` of them, which is refused with
    /// `Error::OverLimit(limit)`.
    pub fn parse<'a, C: QueryCollector<'a>>(query: &'a [u8], limit: usize) -> (r: Result<C, Error>)
        ensures
            query@.len() == 0 ==> r == Err::<C, Error>(Error::Empty),
            r is Err ==> (r->Err_0 == Error::Empty && query@.len() == 0) || (r->Err_0
                == Error::OverLimit(limit) && query@.len() > 0),
            query@.len() > 0 && pairs_of(body_of(query@)).len() == 0 ==> r is Ok,
            C::keeps_order() ==> match outcome(0, query@, limit) {
                Ok(_) => r is Ok && r->Ok_0.pairs() == pairs_of(body_of(query@)),
                Err(e) => r == Err::<C, Error>(e),
            },
            C::is_map() && query@.len() > 0 ==> {
                let all = gathered(Map::empty(), pairs_of(body_of(query@)), limit as int);
                if all.1 {
                    r is Ok && r->Ok_0.entries() == all.0
                } else {
                    r is Err
                }
            },
    {
        let mut result = C::with_capacity(limit);
        match Self::parse_into(&mut result, query, limit) {
            Ok(_) => {
                proof {
                    if C::keeps_order() {
                        let all = pairs_of(body_of(query@));
                        assert(Seq::<(Seq<u8>, Seq<u8>)>::empty() + all =~= all);
                    }
                }
                Ok(result)
            },
            Err(e) => Err(e),
        }
    }

    /// Parses `query` and adds its pairs to `result`.
    ///
    /// Before each pair the collection is asked for its length, and parsing
    /// stops with `Error::OverLimit(limit)` once that length has reached
    /// `limit`; pairs added up to then stay in the collection.
    pub fn parse_into<'a, C: QueryCollector<'a>>(result: &mut C, query: &'a [u8], limit: usize) -> (r:
        Result<(), Error>)
        ensures
            query@.len() == 0 ==> r == Err::<(), Error>(Error::Empty),
            r is Err ==> (r->Err_0 == Error::Empty && query@.len() == 0) || (r->Err_0
                == Error::OverLimit(limit) && query@.len() > 0),
            query@.len() > 0 && pairs_of(body_of(query@)).len() == 0 ==> r is Ok,
            C::keeps_order() ==> r == outcome(old(result).pairs().len() as int, query@, limit)
                && final(result).pairs() == collected(old(result).pairs(), query@, limit as int),
            C::is_map() ==> if query@.len() == 0 {
                final(result).entries() == old(result).entries()
            } else {
                let all = gathered(old(result).entries(), pairs_of(body_of(query@)), limit as int);
                final(result).entries() == all.0 && (r is Ok <==> all.1)
            },
    {
        if query.len() == 0 {
            proof {
                if C::keeps_order() {
                    assert(pairs_of(body_of(query@)) =~= Seq::empty());
                    assert(result.pairs() + Seq::<(Seq<u8>, Seq<u8>)>::empty() =~= result.pairs());
                }
            }
            return Err(Error::Empty);
        }
        let data: &'a [u8] = if query[0] == QUESTION {
            vstd::slice::slice_subrange(query, 1, query.len())
        } else {
            query
        };
        let n: usize = data.len();
        let ghost before = result.pairs();
        let ghost all = pairs_of(data@);
        let ghost mut done: Seq<(Seq<u8>, Seq<u8>)> = Seq::empty();
        assert(data@ == body_of(query@));
        assert(before + done =~= before);
        assert(data@.subrange(0, n as int) =~= data@);
        assert(done + pairs_from(data@, 0) =~= all);

        let mut start: usize = 0;
        while start < n
            invariant
                query@.len() > 0,
                before == old(result).pairs(),
                C::is_map() ==> gathered(
                    old(result).entries(),
                    pairs_of(body_of(query@)),
                    limit as int,
                ) == gathered(result.entries(), pairs_from(data@, start as int), limit as int),
                n == data@.len(),
                start <= n,
                all == pairs_of(body_of(query@)),
                all == done + pairs_from(data@, start as int),
                C::keeps_order() ==> result.pairs() == before + done,
                C::keeps_order() ==> done.len() == 0 || before.len() + done.len() <= limit,
            decreases n - start,
        {
            let held = result.length();
            let rest = vstd::slice::slice_subrange(data, start, n);
            let end: usize = match find_byte(AMP, rest) {
                Some(pos) => start + pos,
                None => n,
            };
            let segment = vstd::slice::slice_subrange(data, start, end);
            let split: usize = match find_byte(EQUALS, segment) {
                Some(pos) => start + pos,
                None => end,
            };
            proof {
                lemma_find(rest@, AMP);
                lemma_find(segment@, EQUALS);
                lemma_pairs_step(data@, start as int, end as int, split as int);
                assert(pairs_from(data@, start as int).drop_first() =~= pairs_from(data@, end + 1));
            }
            if held >= limit {
                proof {
                    assert(all.len() > done.len());
                    if C::keeps_order() {
                        let room = if limit > before.len() {
                            limit - before.len()
                        } else {
                            0
                        };
                        assert(done.len() == room);
                        assert(all.subrange(0, room) =~= done);

                    }
                }
                return Err(Error::OverLimit(limit));
            }
            let key = vstd::slice::slice_subrange(data, start, split);
            let value = if split < end {
                vstd::slice::slice_subrange(data, split + 1, end)
            } else {
                vstd::slice::slice_subrange(data, end, end)
            };
            result.add_param(key, value);
            proof {
                let pair = (key@, value@);
                assert(value@ =~= if split < end {
                    data@.subrange(split + 1, end as int)
                } else {
                    Seq::<u8>::empty()
                });
                assert(done + (seq![pair] + pairs_from(data@, end + 1)) =~= done.push(pair)
                    + pairs_from(data@, end + 1));
                assert(before + done.push(pair) =~= (before + done).push(pair));
                done = done.push(pair);
            }
            start = if end < n {
                end + 1
            } else {
                n
            };
        }
        proof {
            assert(done + Seq::<(Seq<u8>, Seq<u8>)>::empty() =~= done);
        }
        Ok(())
    }
}

/// One pair as it is written in a query string: key, `=`, value.
pub open spec fn written_pair(pair: (Seq<u8>, Seq<u8>)) -> Seq<u8> {
    pair.0 + seq![EQUALS] + pair.1
}

/// The query string that writes the given pairs, with `&` between each two
/// of them.
pub open spec fn written_pairs(pairs: Seq<(Seq<u8>, Seq<u8>)>) -> Seq<u8>
    decreases pairs.len(),
{
    if pairs.len() == 0 {
        Seq::empty()
    } else if pairs.len() == 1 {
        written_pair(pairs[0])
    } else {
        written_pair(pairs[0]) + seq![AMP] + written_pairs(pairs.drop_first())
    }
}

/// Whether a pair can be written in a query string and read back: its key
/// holds neither `&` nor `=`, and its value holds no `&`.
pub open spec fn is_plain(pair: (Seq<u8>, Seq<u8>)) -> bool {
    &&& forall|i: int| 0 <= i < pair.0.len() ==> pair.0[i] != AMP && pair.0[i] != EQUALS
    &&& forall|i: int| 0 <= i < pair.1.len() ==> pair.1[i] != AMP
}

/// The first `b` of a string that holds none before place `k` and one at
/// `k` stands at `k`.
proof fn lemma_find_at(s: Seq<u8>, b: u8, k: int)
    requires
        0 <= k <= s.len(),
        forall|i: int| 0 <= i < k ==> s[i] != b,
        k < s.len() ==> s[k] == b,
    ensures
        find(s, b) == k,
{
    crate::bytes::lemma_find_unique(s, b, k);
}

/// Parsing what writes a list of pairs gives the list back, in order and
/// byte for byte.
pub proof fn lemma_query_round_trip(pairs: Seq<(Seq<u8>, Seq<u8>)>)
    requires
        forall|i: int| 0 <= i < pairs.len() ==> is_plain(#[trigger] pairs[i]),
    ensures
        pairs_of(written_pairs(pairs)) == pairs,
    decreases pairs.len(),
{
    if pairs.len() == 0 {
        assert(pairs_of(written_pairs(pairs)) =~= pairs);
    } else {
        let first = pairs[0];
        let item = written_pair(first);
        let text = written_pairs(pairs);
        assert(is_plain(first));
        lemma_find_at(item, EQUALS, first.0.len() as int);
        assert(item.subrange(0, first.0.len() as int) =~= first.0);
        assert(item.subrange(first.0.len() as int + 1, item.len() as int) =~= first.1);
        assert(pair_of(item) == first);
        if pairs.len() == 1 {
            lemma_find_at(text, AMP, text.len() as int);
            assert(text.subrange(0, text.len() as int) =~= text);
            assert(pairs_of(text) =~= pairs);
        } else {
            let rest = pairs.drop_first();
            assert forall|i: int| 0 <= i < rest.len() implies is_plain(#[trigger] rest[i]) by {
                assert(rest[i] == pairs[i + 1]);
            }
            lemma_query_round_trip(rest);
            lemma_find_at(text, AMP, item.len() as int);
            assert(text.subrange(0, item.len() as int) =~= item);
            assert(text.subrange(item.len() as int + 1, text.len() as int) =~= written_pairs(rest));
            assert(seq![first] + rest =~= pairs);
        }
    }
}

} // verus!
