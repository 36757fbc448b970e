//! The request parser: a start line, header lines up to an empty line,
//! then, for methods other than GET, a body.

use vstd::prelude::*;
use crate::headers::Headers;
use crate::text::{
    chars_of, is_white, lemma_position, lemma_split_on_nonempty, position, push_char, split_chars,
    split_on, string_of, trim, trimmed,
};

verus! {

/// The methods a request may carry.
#[derive(Debug, Clone, Copy, PartialEq, Eq, Structural)]
pub enum RequestType {
    Get,
    Put,
    Post,
}

/// `p` without one carriage return at its end.
pub open spec fn strip_cr(p: Seq<char>) -> Seq<char> {
    if p.len() > 0 && p.last() == '\r' {
        p.drop_last()
    } else {
        p
    }
}

/// The lines of `t`, as `str::lines` gives them: split at each line feed,
/// a carriage return before the line feed dropped, the last line ending
/// optional.
pub open spec fn lines_of(t: Seq<char>) -> Seq<Seq<char>> {
    let parts = split_on(t, '\n');
    let ended = parts.drop_last().map_values(|p: Seq<char>| strip_cr(p));
    if t.len() == 0 || t.last() == '\n' {
        ended
    } else {
        ended.push(parts.last())
    }
}

/// The method that a start-line token names, matched case-sensitively.
pub open spec fn method_of(tok: Seq<char>) -> Option<RequestType> {
    if tok == seq!['G', 'E', 'T'] {
        Some(RequestType::Get)
    } else if tok == seq!['P', 'U', 'T'] {
        Some(RequestType::Put)
    } else if tok == seq!['P', 'O', 'S', 'T'] {
        Some(RequestType::Post)
    } else {
        None
    }
}

/// The key and value of a header line, split at its first colon and
/// trimmed; none for a line without a colon.
pub open spec fn header_entry(line: Seq<char>) -> Option<(Seq<char>, Seq<char>)> {
    let i = position(line, ':') as int;
    if i < line.len() {
        Some((trim(line.take(i)), trim(line.skip(i + 1))))
    } else {
        None
    }
}

/// The mapping that header lines give, in order, a later key overriding an
/// earlier one; none if a line has no colon.
pub open spec fn headers_of(ls: Seq<Seq<char>>) -> Option<Map<Seq<char>, Seq<char>>>
    decreases ls.len(),
{
    if ls.len() == 0 {
        Some(Map::empty())
    } else {
        match (headers_of(ls.drop_last()), header_entry(ls.last())) {
            (Some(m), Some(e)) => Some(m.insert(e.0, e.1)),
            _ => None,
        }
    }
}

/// The lines joined back, each followed by a carriage return and line feed.
pub open spec fn join_crlf(ls: Seq<Seq<char>>) -> Seq<char>
    decreases ls.len(),
{
    if ls.len() == 0 {
        Seq::empty()
    } else {
        join_crlf(ls.drop_last()) + ls.last() + seq!['\r', '\n']
    }
}

/// A parsed request, as values.
pub struct RequestView {
    pub request_type: RequestType,
    pub uri: Seq<char>,
    pub version: Seq<char>,
    pub headers: Map<Seq<char>, Seq<char>>,
    pub content: Option<Seq<char>>,
}

/// The request that the lines `ls` describe, or none.
pub open spec fn parse_lines(ls: Seq<Seq<char>>) -> Option<RequestView> {
    if ls.len() == 0 {
        None
    } else {
        let toks = split_on(ls[0], ' ');
        let rest = ls.skip(1);
        let end = position(rest, Seq::empty()) as int;
        if toks.len() != 3 || method_of(toks[0]) is None {
            None
        } else {
            match headers_of(rest.take(end)) {
                None => None,
                Some(h) => {
                    let m = method_of(toks[0])->0;
                    let body = if m == RequestType::Get || end >= rest.len() {
                        Seq::empty()
                    } else {
                        join_crlf(rest.skip(end + 1))
                    };
                    Some(
                        RequestView {
                            request_type: m,
                            uri: toks[1],
                            version: toks[2],
                            headers: h,
                            content: if body.len() == 0 {
                                None
                            } else {
                                Some(body)
                            },
                        },
                    )
                },
            }
        }
    }
}

/// The request that the text `t` describes, or none.
pub open spec fn parse_request(t: Seq<char>) -> Option<RequestView> {
    parse_lines(lines_of(t))
}

/// A parsed request.
pub struct HttpHeader {
    pub request_type: RequestType,
    pub uri: String,
    pub version: String,
    pub headers: Headers,
    pub content: Option<String>,
}

impl View for HttpHeader {
    type V = RequestView;

    open spec fn view(&self) -> RequestView {
        RequestView {
            request_type: self.request_type,
            uri: self.uri@,
            version: self.version@,
            headers: self.headers@,
            content: match self.content {
                Some(c) => Some(c@),
                None => None,
            },
        }
    }
}

fn copy_range(v: &Vec<char>, lo: usize, hi: usize) -> (r: Vec<char>)
    requires
        lo <= hi <= v.len(),
    ensures
        r@ == v@.subrange(lo as int, hi as int),
{
    let mut r: Vec<char> = Vec::new();
    let mut i: usize = lo;
    while i < hi
        invariant
            lo <= i <= hi <= v.len(),
            r@ == v@.subrange(lo as int, i as int),
        decreases hi - i,
    {
        r.push(v[i]);
        assert(r@ =~= v@.subrange(lo as int, i + 1));
        i = i + 1;
    }
    r
}

/// The lines of `v`, as `lines_of` describes them.
pub fn split_lines(v: &Vec<char>) -> (r: Vec<Vec<char>>)
    ensures
        r.deep_view() == lines_of(v@),
{
    let parts = split_chars(v, '\n');
    let ghost ps = split_on(v@, '\n');
    proof {
        lemma_split_on_nonempty(v@, '\n');
    }
    let n = parts.len();
    let mut r: Vec<Vec<char>> = Vec::new();
    let mut i: usize = 0;
    while i + 1 < n
        invariant
            n == parts.len() == ps.len() >= 1,
            parts.deep_view() == ps,
            i + 1 <= n,
            r.deep_view() == ps.take(i as int).map_values(|p: Seq<char>| strip_cr(p)),
        decreases n - i,
    {
        let p = &parts[i];
        assert(p@ == ps[i as int]) by {
            assert(p.deep_view() =~= p@);
        }
        let len = p.len();
        let line = if len > 0 && p[len - 1] == '\r' {
            copy_range(p, 0, len - 1)
        } else {
            copy_range(p, 0, len)
        };
        assert(line@ =~= strip_cr(ps[i as int]));
        let ghost before = r.deep_view();
        assert(line.deep_view() =~= line@);
        r.push(line);
        assert(r.deep_view() =~= ps.take(i + 1).map_values(|p: Seq<char>| strip_cr(p))) by {
            assert(r.deep_view() =~= before.push(line@));
        }
        i = i + 1;
    }
    assert(ps.take(i as int) =~= ps.drop_last());
    if v.len() > 0 && v[v.len() - 1] != '\n' {
        let p = &parts[n - 1];
        assert(p@ == ps.last()) by {
            assert(p.deep_view() =~= p@);
        }
        let line = copy_range(p, 0, p.len());
        assert(line@ =~= ps.last());
        let ghost before = r.deep_view();
        assert(line.deep_view() =~= line@);
        r.push(line);
        assert(r.deep_view() =~= before.push(ps.last()));
    }
    r
}

fn method_from(tok: &Vec<char>) -> (r: Option<RequestType>)
    ensures
        r == method_of(tok@),
{
    if tok.len() == 3 && tok[0] == 'G' && tok[1] == 'E' && tok[2] == 'T' {
        assert(tok@ =~= seq!['G', 'E', 'T']);
        Some(RequestType::Get)
    } else if tok.len() == 3 && tok[0] == 'P' && tok[1] == 'U' && tok[2] == 'T' {
        assert(tok@ =~= seq!['P', 'U', 'T']);
        Some(RequestType::Put)
    } else if tok.len() == 4 && tok[0] == 'P' && tok[1] == 'O' && tok[2] == 'S' && tok[3] == 'T' {
        assert(tok@ =~= seq!['P', 'O', 'S', 'T']);
        Some(RequestType::Post)
    } else {
        None
    }
}

proof fn lemma_headers_none_extends(s: Seq<Seq<char>>, k: int)
    requires
        0 <= k <= s.len(),
        headers_of(s.take(k)) is None,
    ensures
        headers_of(s) is None,
    decreases s.len(),
{
    if k < s.len() {
        assert(s.drop_last().take(k) =~= s.take(k));
        lemma_headers_none_extends(s.drop_last(), k);
    } else {
        assert(s.take(k) =~= s);
    }
}

fn append_chars(s: &mut String, v: &Vec<char>)
    ensures
        final(s)@ == old(s)@ + v@,
{
    let mut i: usize = 0;
    while i < v.len()
        invariant
            i <= v.len(),
            s@ == old(s)@ + v@.take(i as int),
        decreases v.len() - i,
    {
        push_char(s, v[i]);
        assert(s@ =~= old(s)@ + v@.take(i + 1));
        i = i + 1;
    }
    assert(v@.take(v.len() as int) =~= v@);
}

fn index_of_colon(line: &Vec<char>) -> (r: usize)
    ensures
        r == position(line@, ':'),
        r <= line.len(),
{
    let mut c: usize = 0;
    while c < line.len() && line[c] != ':'
        invariant
            c <= line.len(),
            forall|j: int| 0 <= j < c ==> line@[j] != ':',
        decreases line.len() - c,
    {
        c = c + 1;
    }
    proof {
        lemma_position(line@, ':', c as int);
    }
    c
}

impl HttpHeader {
    /// Parses the text of a request. There is no request where the text has
    /// no line, where its start line is not three tokens parted by single
    /// spaces, where the first token is not a known method, or where a
    /// header line has no colon.
    pub fn parse(text: &str) -> (r: Option<HttpHeader>)
        ensures
            r is Some <==> parse_request(text@) is Some,
            r is Some ==> r->0@ == parse_request(text@)->0 && r->0.headers.wf(),
    {
        let chars = chars_of(text);
        let lines = split_lines(&chars);
        HttpHeader::from_lines(&lines)
    }

    /// Parses a request given as its lines.
    pub fn from_lines(ls: &Vec<Vec<char>>) -> (r: Option<HttpHeader>)
        ensures
            r is Some <==> parse_lines(ls.deep_view()) is Some,
            r is Some ==> r->0@ == parse_lines(ls.deep_view())->0 && r->0.headers.wf(),
    {
        let ghost l = ls.deep_view();
        let n = ls.len();
        if n == 0 {
            return None;
        }
        assert(ls[0]@ == l[0]) by {
            assert(ls[0].deep_view() =~= ls[0]@);
        }
        let toks = split_chars(&ls[0], ' ');
        if toks.len() != 3 {
            return None;
        }
        assert(toks[0]@ == toks.deep_view()[0] && toks[1]@ == toks.deep_view()[1] && toks[2]@
            == toks.deep_view()[2]) by {
            assert(toks[0].deep_view() =~= toks[0]@);
            assert(toks[1].deep_view() =~= toks[1]@);
            assert(toks[2].deep_view() =~= toks[2]@);
        }
        let m = match method_from(&toks[0]) {
            None => {
                return None;
            },
            Some(m) => m,
        };
        let ghost rest = l.skip(1);
        let mut e: usize = 1;
        while e < n && ls[e].len() > 0
            invariant
                1 <= e <= n == l.len(),
                l == ls.deep_view(),
                forall|j: int| 1 <= j < e ==> l[j].len() > 0,
            decreases n - e,
        {
            e = e + 1;
        }
        proof {
            if e < n {
                assert(rest[e - 1] =~= Seq::<char>::empty());
            }
            assert forall|j: int| 0 <= j < e - 1 implies rest[j] != Seq::<char>::empty() by {
                assert(l[j + 1].len() > 0);
            }
            lemma_position(rest, Seq::<char>::empty(), e - 1);
            assert(rest.take(e - 1) =~= l.subrange(1, e as int));
        }
        let mut headers = Headers::new();
        let mut i: usize = 1;
        while i < e
            invariant
                1 <= i <= e <= n == l.len(),
                l == ls.deep_view(),
                rest == l.skip(1),
                position(rest, Seq::<char>::empty()) == e - 1,
                rest.take(e - 1) == l.subrange(1, e as int),
                toks.len() == 3,
                split_on(l[0], ' ') == toks.deep_view(),
                method_of(toks.deep_view()[0]) == Some(m),
                headers.wf(),
                headers_of(l.subrange(1, i as int)) == Some(headers@),
            decreases e - i,
        {
            let line = &ls[i];
            assert(line@ == l[i as int]) by {
                assert(line.deep_view() =~= line@);
            }
            assert(l.subrange(1, i + 1).drop_last() =~= l.subrange(1, i as int));
            let c = index_of_colon(line);
            if c == line.len() {
                proof {
                    assert(l.subrange(1, i + 1).last() == line@);
                    assert(header_entry(line@) is None);
                    assert(headers_of(l.subrange(1, i + 1)) is None);
                    assert(l.subrange(1, e as int).take(i as int) =~= l.subrange(1, i + 1));
                    lemma_headers_none_extends(l.subrange(1, e as int), i as int);
                }
                return None;
            }
            let key = trimmed(line, 0, c);
            let value = trimmed(line, c + 1, line.len());
            assert(line@.subrange(0, c as int) =~= line@.take(c as int));
            assert(line@.subrange(c + 1, line.len() as int) =~= line@.skip(c + 1));
            headers.insert(key, value);
            i = i + 1;
        }
        let mut body = String::new();
        if m != RequestType::Get && e < n {
            let mut j: usize = e + 1;
            while j < n
                invariant
                    e + 1 <= j <= n == l.len(),
                    l == ls.deep_view(),
                    rest == l.skip(1),
                    position(rest, Seq::<char>::empty()) == e - 1,
                    rest.take(e - 1) == l.subrange(1, e as int),
                    toks.len() == 3,
                    split_on(l[0], ' ') == toks.deep_view(),
                    method_of(toks.deep_view()[0]) == Some(m),
                    headers_of(rest.take(e - 1)) == Some(headers@),
                    headers.wf(),
                    body@ == join_crlf(l.subrange(e + 1, j as int)),
                decreases n - j,
            {
                let line = &ls[j];
                assert(line@ == l[j as int]) by {
                    assert(line.deep_view() =~= line@);
                }
                assert(l.subrange(e + 1, j + 1).drop_last() =~= l.subrange(e + 1, j as int));
                append_chars(&mut body, line);
                push_char(&mut body, '\r');
                push_char(&mut body, '\n');
                assert(body@ =~= join_crlf(l.subrange(e + 1, j + 1)));
                j = j + 1;
            }
            assert(rest.skip(e as int) =~= l.subrange(e + 1, n as int));
        } else {
            assert(body@ =~= Seq::<char>::empty());
        }
        let content = if body.as_str().is_empty() {
            None
        } else {
            Some(body)
        };
        let uri = string_of(&toks[1], 0, toks[1].len());
        let version = string_of(&toks[2], 0, toks[2].len());
        assert(toks[1]@.subrange(0, toks[1].len() as int) =~= toks[1]@);
        assert(toks[2]@.subrange(0, toks[2].len() as int) =~= toks[2]@);
        Some(HttpHeader { request_type: m, uri, version, headers, content })
    }
}

/// A start line that is not three tokens parted by single spaces, or whose
/// first token is no known method, gives no request.
pub proof fn lemma_malformed_start_line(t: Seq<char>)
    requires
        lines_of(t).len() > 0,
        split_on(lines_of(t)[0], ' ').len() != 3 || method_of(split_on(lines_of(t)[0], ' ')[0]) is None,
    ensures
        parse_request(t) is None,
{
}

/// A header line written as a key, a colon, a space and a value parses
/// back to that key and value alone, where the key holds no colon and
/// neither has white space at its ends.
pub proof fn lemma_header_round_trip(k: Seq<char>, v: Seq<char>)
    requires
        forall|i: int| 0 <= i < k.len() ==> k[i] != ':',
        trim(k) == k,
        trim(v) == v,
    ensures
        headers_of(seq![k + seq![':', ' '] + v]) == Some(map![k => v]),
{
    let line = k + seq![':', ' '] + v;
    lemma_position(line, ':', k.len() as int);
    assert(line.take(k.len() as int) =~= k);
    assert(line.skip(k.len() as int + 1) =~= seq![' '] + v);
    assert(is_white(' '));
    assert((seq![' '] + v).drop_first() =~= v);
    assert(trim(seq![' '] + v) == trim(v));
    assert(header_entry(line) == Some((k, v)));
    let ls = seq![line];
    assert(ls.drop_last() =~= Seq::<Seq<char>>::empty());
    assert(ls.last() == line);
    assert(headers_of(ls.drop_last()) == Some(Map::<Seq<char>, Seq<char>>::empty()));
    assert(map![k => v] =~= Map::<Seq<char>, Seq<char>>::empty().insert(k, v));
}

/// Of two header lines with the same key, the later one's value is kept
/// and the mapping has that key alone.
pub proof fn lemma_later_header_wins(
    l1: Seq<char>,
    l2: Seq<char>,
    k: Seq<char>,
    v1: Seq<char>,
    v2: Seq<char>,
)
    requires
        header_entry(l1) == Some((k, v1)),
        header_entry(l2) == Some((k, v2)),
    ensures
        headers_of(seq![l1, l2]) == Some(map![k => v2]),
{
    let ls = seq![l1, l2];
    assert(ls.drop_last() =~= seq![l1]);
    assert(seq![l1].drop_last() =~= Seq::<Seq<char>>::empty());
    assert(headers_of(seq![l1].drop_last()) == Some(Map::<Seq<char>, Seq<char>>::empty()));
    assert(seq![l1].last() == l1);
    assert(headers_of(seq![l1]) == Some(Map::<Seq<char>, Seq<char>>::empty().insert(k, v1)));
    assert(ls.last() == l2);
    assert(map![k => v2] =~= Map::<Seq<char>, Seq<char>>::empty().insert(k, v1).insert(k, v2));
}

} // verus!
