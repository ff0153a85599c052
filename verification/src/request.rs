//! The immutable model of a parsed HTTP request.

use crate::scan::lemma_index_of_first_at;
use crate::scan::lemma_index_of_first_none;
use vstd::prelude::*;
use vstd::string::StrSliceExecFns;
use vstd::string::StringExecFns;

verus! {

/// The protocol version named on a request line.
#[derive(Clone, Copy, Debug, PartialEq, Eq, Structural)]
pub enum Protocol {
    Http10,
    Http11,
}

impl Protocol {
    /// The wire text of this protocol version.
    pub open spec fn spec_text(self) -> Seq<char> {
        match self {
            Protocol::Http10 => "HTTP/1.0"@,
            Protocol::Http11 => "HTTP/1.1"@,
        }
    }

    /// Renders the protocol version as it appears on a status line.
    pub fn text(&self) -> (r: String)
        ensures
            r@ == self.spec_text(),
    {
        match self {
            Protocol::Http10 => String::from_str("HTTP/1.0"),
            Protocol::Http11 => String::from_str("HTTP/1.1"),
        }
    }

    /// Recognizes a protocol version from its wire text; any other text is
    /// rejected.
    pub fn from_text(s: &str) -> (r: Option<Protocol>)
        ensures
            match r {
                Some(p) => s@ == p.spec_text(),
                None => forall|p: Protocol| s@ != #[trigger] p.spec_text(),
            },
    {
        let text = String::from_str(s);
        if text == String::from_str("HTTP/1.0") {
            Some(Protocol::Http10)
        } else if text == String::from_str("HTTP/1.1") {
            Some(Protocol::Http11)
        } else {
            proof {
                assert forall|p: Protocol| s@ != #[trigger] p.spec_text() by {
                    assert(s@ != Protocol::Http10.spec_text());
                    assert(s@ != Protocol::Http11.spec_text());
                }
            }
            None
        }
    }
}

/// The mathematical view of a request: plain sequences for every field.
pub struct RequestView {
    pub protocol: Protocol,
    pub method: Seq<char>,
    pub path: Seq<char>,
    pub headers: Seq<(Seq<char>, Seq<char>)>,
    pub body: Seq<u8>,
}

/// A parsed HTTP request.  Constructed once by the transport layer's
/// parser and consumed read-only by every responder.
#[derive(Clone, Debug)]
pub struct Request {
    pub protocol: Protocol,
    pub method: String,
    pub path: String,
    pub headers: Vec<(String, String)>,
    pub body: Vec<u8>,
}

impl View for Request {
    type V = RequestView;

    open spec fn view(&self) -> RequestView {
        RequestView {
            protocol: self.protocol,
            method: self.method@,
            path: self.path@,
            headers: self.headers.deep_view(),
            body: self.body@,
        }
    }
}

/// What parsing the first line of a request message yields: the method,
/// the path, and the recognized protocol version.  The line runs to the
/// first carriage return, or to the end of the text when there is none.
pub open spec fn spec_parse_request_line(s: Seq<char>) -> Option<(Seq<char>, Seq<char>, Protocol)> {
    let line = match s.index_of_first('\r') {
        Some(k) => s.take(k),
        None => s,
    };
    match line.index_of_first(' ') {
        Some(i) => {
            let rest = line.skip(i + 1);
            match rest.index_of_first(' ') {
                Some(j) => {
                    let tail = rest.skip(j + 1);
                    if tail == Protocol::Http10.spec_text() {
                        Some((line.take(i), rest.take(j), Protocol::Http10))
                    } else if tail == Protocol::Http11.spec_text() {
                        Some((line.take(i), rest.take(j), Protocol::Http11))
                    } else {
                        None
                    }
                },
                None => None,
            }
        },
        None => None,
    }
}

impl Request {
    pub fn new(
        protocol: Protocol,
        method: String,
        path: String,
        headers: Vec<(String, String)>,
        body: Vec<u8>,
    ) -> (r: Request)
        ensures
            r == (Request { protocol, method, path, headers, body }),
    {
        Request { protocol, method, path, headers, body }
    }

    /// Parses the request line of a message, `METHOD SP PATH SP PROTOCOL`,
    /// read up to the first carriage return.  The headers and the body of
    /// the returned request are empty: tokenizing the rest of the message
    /// is the transport parser's job, not this model's.
    pub fn from_request_line(s: &str) -> (r: Option<Request>)
        ensures
            match spec_parse_request_line(s@) {
                Some(parts) => {
                    &&& r matches Some(req)
                    &&& req@.method == parts.0
                    &&& req@.path == parts.1
                    &&& req@.protocol == parts.2
                    &&& req@.headers == Seq::<(Seq<char>, Seq<char>)>::empty()
                    &&& req@.body == Seq::<u8>::empty()
                },
                None => r is None,
            },
    {
        let total = s.unicode_len();
        let mut limit: usize = 0;
        while limit < total && s.get_char(limit) != '\r'
            invariant
                limit <= total,
                total == s@.len(),
                forall|k: int| 0 <= k < limit ==> s@[k] != '\r',
            decreases total - limit,
        {
            limit = limit + 1;
        }
        let ghost line = s@.take(limit as int);
        proof {
            if limit == total {
                lemma_index_of_first_none(s@, '\r');
                assert(line =~= s@);
            } else {
                lemma_index_of_first_at(s@, '\r', limit as int);
            }
            assert(forall|k: int| 0 <= k < line.len() ==> line[k] == s@[k]);
        }

        let mut i: usize = 0;
        while i < limit && s.get_char(i) != ' '
            invariant
                i <= limit,
                limit <= total,
                total == s@.len(),
                forall|k: int| 0 <= k < i ==> s@[k] != ' ',
            decreases limit - i,
        {
            i = i + 1;
        }
        if i == limit {
            proof {
                lemma_index_of_first_none(line, ' ');
            }
            return None;
        }
        proof {
            lemma_index_of_first_at(line, ' ', i as int);
        }
        let ghost rest = line.skip(i + 1);
        proof {
            assert(forall|k: int| 0 <= k < rest.len() ==> rest[k] == s@[k + i + 1]);
        }

        let mut j: usize = i + 1;
        while j < limit && s.get_char(j) != ' '
            invariant
                i + 1 <= j <= limit,
                limit <= total,
                total == s@.len(),
                forall|k: int| i + 1 <= k < j ==> s@[k] != ' ',
            decreases limit - j,
        {
            j = j + 1;
        }
        if j == limit {
            proof {
                lemma_index_of_first_none(rest, ' ');
            }
            return None;
        }
        proof {
            lemma_index_of_first_at(rest, ' ', j - (i + 1));
        }

        let method = s.substring_char(0, i);
        let path = s.substring_char(i + 1, j);
        let proto_text = s.substring_char(j + 1, limit);
        proof {
            assert(method@ =~= line.take(i as int));
            assert(path@ =~= rest.take(j - (i + 1)));
            assert(proto_text@ =~= rest.skip(j - (i + 1) + 1));
            reveal_strlit("HTTP/1.0");
            reveal_strlit("HTTP/1.1");
            assert("HTTP/1.0"@[7] == '0' && "HTTP/1.1"@[7] == '1');
            assert(Protocol::Http10.spec_text() != Protocol::Http11.spec_text());
        }
        match Protocol::from_text(proto_text) {
            Some(protocol) => {
                let headers: Vec<(String, String)> = Vec::new();
                let body: Vec<u8> = Vec::new();
                proof {
                    assert(headers.deep_view() =~= Seq::<(Seq<char>, Seq<char>)>::empty());
                    assert(body@ =~= Seq::<u8>::empty());
                }
                Some(
                    Request {
                        protocol,
                        method: String::from_str(method),
                        path: String::from_str(path),
                        headers,
                        body,
                    },
                )
            },
            None => None,
        }
    }
}

} // verus!
