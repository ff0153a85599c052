//! The model of an HTTP response and its serialization to wire bytes.
//!
//! A response is built by a responder, possibly amended, and finally
//! serialized: the status line, then each header as `Key: Value` on its own
//! line, then a blank line, then the raw body bytes.

use crate::scan::lemma_index_of_first_at;
use crate::scan::lemma_index_of_first_none;
use vstd::prelude::*;
use vstd::string::StrSliceExecFns;
use vstd::string::StringExecFns;
use vstd::utf8::decode_utf8;
use vstd::utf8::encode_utf8;
use vstd::utf8::encode_utf8_decode_utf8;

verus! {

/// The mathematical view of a response: plain sequences for every field.
pub struct ResponseView {
    pub protocol: Seq<char>,
    pub status: Seq<char>,
    pub headers: Seq<(Seq<char>, Seq<char>)>,
    pub body: Seq<u8>,
}

/// An HTTP response: mutable until it is serialized and sent.
///
/// Header insertion order is preserved by serialization; header keys are
/// kept unique, with the last write to a key winning.
#[derive(Clone, Debug)]
pub struct Response {
    pub protocol: String,
    pub status_line: String,
    pub headers: Vec<(String, String)>,
    pub body: Vec<u8>,
}

/// No header key occurs twice.
pub open spec fn unique_keys(headers: Seq<(Seq<char>, Seq<char>)>) -> bool {
    forall|i: int, j: int|
        0 <= i < j < headers.len() ==> (#[trigger] headers[i]).0 != (#[trigger] headers[j]).0
}

impl View for Response {
    type V = ResponseView;

    open spec fn view(&self) -> ResponseView {
        ResponseView {
            protocol: self.protocol@,
            status: self.status_line@,
            headers: self.headers.deep_view(),
            body: self.body@,
        }
    }
}

impl Response {
    /// The header-uniqueness invariant that constructors establish and
    /// methods preserve.
    pub open spec fn wf(self) -> bool {
        unique_keys(self@.headers)
    }

    pub fn new(
        protocol: String,
        status_line: String,
        headers: Vec<(String, String)>,
        body: Vec<u8>,
    ) -> (r: Response)
        requires
            unique_keys(headers.deep_view()),
        ensures
            r == (Response { protocol, status_line, headers, body }),
            r.wf(),
    {
        Response { protocol, status_line, headers, body }
    }
}

/// The status line on the wire: protocol, one space, status text, CRLF.
pub open spec fn spec_status_line(protocol: Seq<char>, status: Seq<char>) -> Seq<char> {
    protocol + " "@ + status + "\r\n"@
}

/// One serialized header line.
pub open spec fn spec_header_line(key: Seq<char>, value: Seq<char>) -> Seq<char> {
    key + ": "@ + value + "\r\n"@
}

/// The serialized header block: each header on its own line, in order.
pub open spec fn spec_header_block(headers: Seq<(Seq<char>, Seq<char>)>) -> Seq<char>
    decreases headers.len(),
{
    if headers.len() == 0 {
        Seq::empty()
    } else {
        spec_header_line(headers[0].0, headers[0].1) + spec_header_block(headers.drop_first())
    }
}

/// Everything before the body: status line, header block, blank line.
pub open spec fn spec_head(r: ResponseView) -> Seq<char> {
    spec_status_line(r.protocol, r.status) + spec_header_block(r.headers) + "\r\n"@
}

/// The full wire form: the UTF-8 bytes of the head, then the body bytes
/// unmodified.
pub open spec fn spec_wire_bytes(r: ResponseView) -> Seq<u8> {
    encode_utf8(spec_head(r)) + r.body
}

/// Serializing a longer prefix of the header block appends one line.
proof fn lemma_header_block_snoc(headers: Seq<(Seq<char>, Seq<char>)>, i: int)
    requires
        0 <= i < headers.len(),
    ensures
        spec_header_block(headers.take(i + 1)) == spec_header_block(headers.take(i))
            + spec_header_line(headers[i].0, headers[i].1),
    decreases i,
{
    let pre = headers.take(i + 1);
    if i == 0 {
        assert(pre.drop_first() =~= headers.take(0));
        assert(spec_header_block(headers.take(0)) == Seq::<char>::empty());
        assert(spec_header_block(pre) =~= spec_header_line(headers[0].0, headers[0].1)
            + spec_header_block(headers.take(0)));
        assert(spec_header_block(headers.take(0)) + spec_header_line(headers[0].0, headers[0].1)
            =~= spec_header_line(headers[0].0, headers[0].1));
    } else {
        let tail = headers.drop_first();
        lemma_header_block_snoc(tail, i - 1);
        assert(pre.drop_first() =~= tail.take(i));
        assert(headers.take(i).drop_first() =~= tail.take(i - 1));
        assert(pre[0] == headers[0]);
        assert(headers.take(i)[0] == headers[0]);
        assert(tail[i - 1] == headers[i]);
        assert(spec_header_block(headers.take(i + 1)) == spec_header_line(
            headers[0].0,
            headers[0].1,
        ) + spec_header_block(tail.take(i)));
        assert(spec_header_block(headers.take(i)) == spec_header_line(headers[0].0, headers[0].1)
            + spec_header_block(tail.take(i - 1)));
        assert(spec_header_line(headers[0].0, headers[0].1) + (spec_header_block(tail.take(i - 1))
            + spec_header_line(headers[i].0, headers[i].1)) =~= (spec_header_line(
            headers[0].0,
            headers[0].1,
        ) + spec_header_block(tail.take(i - 1))) + spec_header_line(headers[i].0, headers[i].1));
    }
}

impl Response {
    /// Renders everything before the body as one string: the status line,
    /// the header block, and the separating blank line.
    pub fn head_string(&self) -> (r: String)
        ensures
            r@ == spec_head(self@),
    {
        let mut head = self.protocol.clone();
        head.append(" ");
        head.append(self.status_line.as_str());
        head.append("\r\n");
        assert(head@ =~= spec_status_line(self@.protocol, self@.status));

        let ghost hs = self@.headers;
        let mut i: usize = 0;
        while i < self.headers.len()
            invariant
                i <= self.headers.len(),
                hs == self@.headers,
                self.headers.deep_view() == hs,
                head@ == spec_status_line(self@.protocol, self@.status) + spec_header_block(
                    hs.take(i as int),
                ),
            decreases self.headers.len() - i,
        {
            let pair = &self.headers[i];
            head.append(pair.0.as_str());
            head.append(": ");
            head.append(pair.1.as_str());
            head.append("\r\n");
            proof {
                lemma_header_block_snoc(hs, i as int);
                assert(hs[i as int] == (self.headers[i as int].0@, self.headers[i as int].1@));
                assert(head@ =~= spec_status_line(self@.protocol, self@.status)
                    + spec_header_block(hs.take(i + 1)));
            }
            i = i + 1;
        }
        proof {
            assert(hs.take(hs.len() as int) =~= hs);
        }
        head.append("\r\n");
        assert(head@ =~= spec_head(self@));
        head
    }

    /// Serializes the response to its wire bytes: the UTF-8 bytes of the
    /// head, then the body bytes unmodified.
    pub fn to_bytes(&self) -> (r: Vec<u8>)
        ensures
            r@ == spec_wire_bytes(self@),
    {
        let head = self.head_string();
        let mut out = head.as_str().as_bytes_vec();
        assert(out@ == encode_utf8(spec_head(self@)));
        assert(out@ =~= encode_utf8(spec_head(self@)) + self@.body.take(0));

        let mut j: usize = 0;
        while j < self.body.len()
            invariant
                j <= self.body.len(),
                out@ == encode_utf8(spec_head(self@)) + self@.body.take(j as int),
            decreases self.body.len() - j,
        {
            out.push(self.body[j]);
            proof {
                assert(out@ =~= encode_utf8(spec_head(self@)) + self@.body.take(j + 1));
            }
            j = j + 1;
        }
        proof {
            assert(self@.body.take(self@.body.len() as int) =~= self@.body);
        }
        out
    }
}

/// The header sequence after writing `key: value`: the value at the first
/// occurrence of the key is replaced, or the pair is appended when the key
/// is absent.  Last write wins.
pub open spec fn spec_set_header(
    headers: Seq<(Seq<char>, Seq<char>)>,
    key: Seq<char>,
    value: Seq<char>,
) -> Seq<(Seq<char>, Seq<char>)>
    decreases headers.len(),
{
    if headers.len() == 0 {
        seq![(key, value)]
    } else if headers[0].0 == key {
        seq![(key, value)] + headers.drop_first()
    } else {
        seq![headers[0]] + spec_set_header(headers.drop_first(), key, value)
    }
}

/// When the key first occurs at position `i`, writing it updates that
/// position in place.
proof fn lemma_set_header_found(
    headers: Seq<(Seq<char>, Seq<char>)>,
    key: Seq<char>,
    value: Seq<char>,
    i: int,
)
    requires
        0 <= i < headers.len(),
        headers[i].0 == key,
        forall|j: int| 0 <= j < i ==> (#[trigger] headers[j]).0 != key,
    ensures
        spec_set_header(headers, key, value) == headers.update(i, (key, value)),
    decreases i,
{
    if i == 0 {
        assert(seq![(key, value)] + headers.drop_first() =~= headers.update(0, (key, value)));
    } else {
        let tail = headers.drop_first();
        assert(tail[i - 1] == headers[i]);
        assert(forall|j: int| 0 <= j < i - 1 ==> (#[trigger] tail[j]) == headers[j + 1]);
        lemma_set_header_found(tail, key, value, i - 1);
        assert(seq![headers[0]] + tail.update(i - 1, (key, value)) =~= headers.update(
            i,
            (key, value),
        ));
    }
}

/// When the key is absent, writing it appends the pair.
proof fn lemma_set_header_absent(
    headers: Seq<(Seq<char>, Seq<char>)>,
    key: Seq<char>,
    value: Seq<char>,
)
    requires
        forall|j: int| 0 <= j < headers.len() ==> (#[trigger] headers[j]).0 != key,
    ensures
        spec_set_header(headers, key, value) == headers.push((key, value)),
    decreases headers.len(),
{
    if headers.len() == 0 {
        assert(seq![(key, value)] =~= headers.push((key, value)));
    } else {
        let tail = headers.drop_first();
        assert(forall|j: int| 0 <= j < tail.len() ==> (#[trigger] tail[j]) == headers[j + 1]);
        lemma_set_header_absent(tail, key, value);
        assert(seq![headers[0]] + tail.push((key, value)) =~= headers.push((key, value)));
    }
}

/// Writing a header keeps the keys unique: the one invariant of the
/// response's header mapping.
pub proof fn lemma_set_header_preserves_unique(
    headers: Seq<(Seq<char>, Seq<char>)>,
    key: Seq<char>,
    value: Seq<char>,
)
    requires
        unique_keys(headers),
    ensures
        unique_keys(spec_set_header(headers, key, value)),
{
    if exists|j: int| 0 <= j < headers.len() && (#[trigger] headers[j]).0 == key {
        let j = choose|j: int| 0 <= j < headers.len() && (#[trigger] headers[j]).0 == key;
        assert(forall|l: int| 0 <= l < j ==> (#[trigger] headers[l]).0 != key);
        lemma_set_header_found(headers, key, value, j);
        let updated = headers.update(j, (key, value));
        assert forall|a: int, b: int| 0 <= a < b < updated.len() implies (#[trigger] updated[a]).0
            != (#[trigger] updated[b]).0 by {
            assert(headers[a].0 != headers[b].0);
        }
    } else {
        lemma_set_header_absent(headers, key, value);
        let pushed = headers.push((key, value));
        assert forall|a: int, b: int| 0 <= a < b < pushed.len() implies (#[trigger] pushed[a]).0
            != (#[trigger] pushed[b]).0 by {
            if b < headers.len() {
                assert(headers[a].0 != headers[b].0);
            } else {
                assert(headers[a].0 != key);
            }
        }
    }
}

impl Response {
    /// Writes a header.  The value of an existing key is replaced in place,
    /// keeping insertion order; a new key is appended.  Keys stay unique.
    pub fn set_header(&mut self, key: String, value: String)
        requires
            old(self).wf(),
        ensures
            final(self).wf(),
            final(self)@.protocol == old(self)@.protocol,
            final(self)@.status == old(self)@.status,
            final(self)@.body == old(self)@.body,
            final(self)@.headers == spec_set_header(old(self)@.headers, key@, value@),
    {
        let ghost hs = self@.headers;
        let mut idx: usize = 0;
        while idx < self.headers.len()
            invariant
                idx <= self.headers.len(),
                *self == *old(self),
                hs == self@.headers,
                unique_keys(hs),
                forall|j: int| 0 <= j < idx ==> (#[trigger] hs[j]).0 != key@,
            decreases self.headers.len() - idx,
        {
            if self.headers[idx].0 == key {
                proof {
                    lemma_set_header_found(hs, key@, value@, idx as int);
                    lemma_set_header_preserves_unique(hs, key@, value@);
                }
                self.headers[idx] = (key, value);
                proof {
                    assert(self.headers.deep_view() =~= hs.update(idx as int, (key@, value@)));
                }
                return ;
            }
            idx = idx + 1;
        }
        proof {
            lemma_set_header_absent(hs, key@, value@);
            lemma_set_header_preserves_unique(hs, key@, value@);
        }
        self.headers.push((key, value));
        proof {
            assert(self.headers.deep_view() =~= hs.push((key@, value@)));
        }
    }
}

/// Free of carriage returns and line feeds, so it cannot break a line of
/// the serialized head.
pub open spec fn line_safe(s: Seq<char>) -> bool {
    forall|i: int| 0 <= i < s.len() ==> s[i] != '\r' && s[i] != '\n'
}

/// A single token on the status line: line-safe and free of spaces.
pub open spec fn token_safe(s: Seq<char>) -> bool {
    line_safe(s) && forall|i: int| 0 <= i < s.len() ==> s[i] != ' '
}

/// What parsing a status line yields: the text before the first space and
/// the text from there to the first CRLF, when that shape is present.
pub open spec fn spec_parse_status_line(s: Seq<char>) -> Option<(Seq<char>, Seq<char>)> {
    match s.index_of_first(' ') {
        Some(i) => {
            let rest = s.skip(i + 1);
            match rest.index_of_first('\r') {
                Some(j) => {
                    if j + 1 < rest.len() && rest[j + 1] == '\n' {
                        Some((s.take(i), rest.take(j)))
                    } else {
                        None
                    }
                },
                None => None,
            }
        },
        None => None,
    }
}

/// Splits a status line into the protocol and the status text: everything
/// before the first space, and from there to the first CRLF.  Returns
/// nothing when the line has no space or no CRLF after it.
pub fn parse_status_line(line: &str) -> (r: Option<(String, String)>)
    ensures
        match spec_parse_status_line(line@) {
            Some(ps) => r matches Some(out) && out.0@ == ps.0 && out.1@ == ps.1,
            None => r is None,
        },
{
    let len = line.unicode_len();
    let mut i: usize = 0;
    while i < len && line.get_char(i) != ' '
        invariant
            i <= len,
            len == line@.len(),
            forall|j: int| 0 <= j < i ==> line@[j] != ' ',
        decreases len - i,
    {
        i = i + 1;
    }
    if i == len {
        proof {
            lemma_index_of_first_none(line@, ' ');
        }
        return None;
    }
    proof {
        lemma_index_of_first_at(line@, ' ', i as int);
    }
    let ghost rest = line@.skip(i + 1);

    let mut j: usize = i + 1;
    while j < len && line.get_char(j) != '\r'
        invariant
            i + 1 <= j <= len,
            len == line@.len(),
            forall|k: int| i + 1 <= k < j ==> line@[k] != '\r',
        decreases len - j,
    {
        j = j + 1;
    }
    proof {
        assert(rest.len() == len - (i + 1));
        assert(forall|k: int| 0 <= k < rest.len() ==> rest[k] == line@[k + i + 1]);
    }
    if j == len {
        proof {
            lemma_index_of_first_none(rest, '\r');
        }
        return None;
    }
    proof {
        lemma_index_of_first_at(rest, '\r', j - (i + 1));
    }
    if j + 1 == len || line.get_char(j + 1) != '\n' {
        return None;
    }

    let protocol = line.substring_char(0, i);
    let status = line.substring_char(i + 1, j);
    proof {
        assert(protocol@ =~= line@.take(i as int));
        assert(status@ =~= rest.take(j - (i + 1)));
    }
    Some((String::from_str(protocol), String::from_str(status)))
}

/// Re-parsing the status line of a serialized response head recovers the
/// protocol and the status text, whatever headers and body follow.
pub proof fn lemma_status_line_round_trip(r: ResponseView)
    requires
        token_safe(r.protocol),
        line_safe(r.status),
    ensures
        spec_parse_status_line(spec_head(r)) == Some((r.protocol, r.status)),
{
    reveal_strlit(" ");
    reveal_strlit("\r\n");
    let s = spec_head(r);
    let p = r.protocol.len() as int;
    assert(" "@.len() == 1 && " "@[0] == ' ');
    assert("\r\n"@.len() == 2 && "\r\n"@[0] == '\r' && "\r\n"@[1] == '\n');
    assert(s[p] == ' ');
    assert(forall|j: int| 0 <= j < p ==> s[j] == r.protocol[j]);
    lemma_index_of_first_at(s, ' ', p);

    let rest = s.skip(p + 1);
    let q = r.status.len() as int;
    assert(rest.len() == s.len() - (p + 1));
    assert(forall|k: int| 0 <= k < rest.len() ==> rest[k] == s[k + p + 1]);
    assert(forall|k: int| 0 <= k < q ==> rest[k] == r.status[k]);
    assert(rest[q] == '\r');
    assert(rest[q + 1] == '\n');
    lemma_index_of_first_at(rest, '\r', q);
    assert(q + 1 < rest.len());
    assert(s.take(p) =~= r.protocol);
    assert(rest.take(q) =~= r.status);
}

/// Serialization is deterministic: any two byte vectors that `to_bytes`
/// may return for responses with equal views are identical.
pub proof fn lemma_serialization_deterministic(
    r1: ResponseView,
    r2: ResponseView,
    b1: Seq<u8>,
    b2: Seq<u8>,
)
    requires
        r1 == r2,
        b1 == spec_wire_bytes(r1),
        b2 == spec_wire_bytes(r2),
    ensures
        b1 == b2,
{
}

/// The same round trip read at the byte level: for a response without a
/// body, decoding the wire bytes and re-parsing the status line recovers
/// the protocol and the status text.
pub proof fn lemma_wire_bytes_round_trip(r: ResponseView)
    requires
        token_safe(r.protocol),
        line_safe(r.status),
        r.body == Seq::<u8>::empty(),
    ensures
        spec_parse_status_line(decode_utf8(spec_wire_bytes(r))) == Some((r.protocol, r.status)),
{
    assert(spec_wire_bytes(r) =~= encode_utf8(spec_head(r)));
    encode_utf8_decode_utf8(spec_head(r));
    lemma_status_line_round_trip(r);
}

} // verus!
