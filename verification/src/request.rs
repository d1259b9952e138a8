//! The request parser: turns the head lines and the body text read from one
//! connection into a structured request, or a typed parse failure. The
//! contracts are stated against a spec-level model of the same grammar
//! (`parse_head_model`, `attach_body_model`).

use vstd::prelude::*;
use vstd::string::StringSliceAdditionalSpecFns;
use crate::dict::Dict;
use crate::strutil::{
    split_once_ch, split_once_two, split_ch, split_two, split_once_char, split_once_pair, str_eq,
    all_digits, dec_value, parse_usize, lemma_split_ch_step, lemma_split_two_step,
    lemma_split_once_ch_parts, lemma_split_once_two_parts,
};
use crate::trusted::{json_string_pairs, parse_json_pairs};

verus! {

/// Why a request could not be parsed. Every one of these aborts the
/// connection before any handler runs.
#[derive(Clone, Copy, PartialEq, Eq, Structural, Debug)]
pub enum ParseError {
    MalformedStartLine,
    MalformedHeader,
    MalformedCookie,
    MalformedContentLength,
    IncompleteBody,
    MalformedFormBody,
    MalformedJsonBody,
}

/// Spec-level model of a parsed request.
pub ghost struct ReqModel {
    pub verb: Seq<char>,
    pub path: Seq<char>,
    pub headers: Map<Seq<char>, Seq<char>>,
    pub cookies: Map<Seq<char>, Seq<char>>,
    pub params: Map<Seq<char>, Seq<char>>,
    pub body: Seq<char>,
}

/// One parsed request. The verb and path come from the start line; headers
/// and cookies from the header lines; params from the decoded body and,
/// later, from path captures; body holds the raw body text.
#[derive(Debug)]
pub struct Request {
    pub verb: String,
    pub path: String,
    pub headers: Dict,
    pub cookies: Dict,
    pub params: Dict,
    pub body: String,
}

impl View for Request {
    type V = ReqModel;

    open spec fn view(&self) -> ReqModel {
        ReqModel {
            verb: self.verb@,
            path: self.path@,
            headers: self.headers@,
            cookies: self.cookies@,
            params: self.params@,
            body: self.body@,
        }
    }
}

impl Request {
    /// An empty request, as a handler test fixture or parse seed.
    pub fn new() -> (r: Request)
        ensures
            r@.verb == Seq::<char>::empty(),
            r@.path == Seq::<char>::empty(),
            r@.headers == Map::<Seq<char>, Seq<char>>::empty(),
            r@.cookies == Map::<Seq<char>, Seq<char>>::empty(),
            r@.params == Map::<Seq<char>, Seq<char>>::empty(),
            r@.body == Seq::<char>::empty(),
    {
        Request {
            verb: String::new(),
            path: String::new(),
            headers: Dict::new(),
            cookies: Dict::new(),
            params: Dict::new(),
            body: String::new(),
        }
    }
}

// ---------------------------------------------------------------------------
// Spec model of the grammar
// ---------------------------------------------------------------------------

/// The verb and path of a start line: the first two tokens of a split on
/// single spaces; anything after the second token is ignored.
pub open spec fn start_line_parts(line: Seq<char>) -> Option<(Seq<char>, Seq<char>)> {
    match split_once_ch(line, ' ') {
        None => None,
        Some((verb, rest)) => match split_once_ch(rest, ' ') {
            None => Some((verb, rest)),
            Some((path, _)) => Some((verb, path)),
        },
    }
}

/// Folds `k=v` cookie entries into `acc` in order; an entry without `=`
/// makes the whole cookie header ill-formed.
pub open spec fn add_cookies(
    entries: Seq<Seq<char>>,
    acc: Map<Seq<char>, Seq<char>>,
) -> Option<Map<Seq<char>, Seq<char>>>
    decreases entries.len(),
{
    if entries.len() == 0 {
        Some(acc)
    } else {
        match split_once_ch(entries.first(), '=') {
            None => None,
            Some((k, v)) => add_cookies(entries.drop_first(), acc.insert(k, v)),
        }
    }
}

/// Header lines after the start line, up to an empty line or the end of the
/// input. Each line splits on the first `": "`; a `Cookie` header goes to
/// cookie parsing instead of the header table.
pub open spec fn parse_header_lines(
    lines: Seq<Seq<char>>,
    headers: Map<Seq<char>, Seq<char>>,
    cookies: Map<Seq<char>, Seq<char>>,
) -> Result<(Map<Seq<char>, Seq<char>>, Map<Seq<char>, Seq<char>>), ParseError>
    decreases lines.len(),
{
    if lines.len() == 0 {
        Ok((headers, cookies))
    } else if lines.first().len() == 0 {
        Ok((headers, cookies))
    } else {
        match split_once_two(lines.first(), ':', ' ') {
            None => Err(ParseError::MalformedHeader),
            Some((name, value)) => if name == "Cookie"@ {
                match add_cookies(split_two(value, ';', ' '), cookies) {
                    None => Err(ParseError::MalformedCookie),
                    Some(c) => parse_header_lines(lines.drop_first(), headers, c),
                }
            } else {
                parse_header_lines(lines.drop_first(), headers.insert(name, value), cookies)
            },
        }
    }
}

/// The model of parsing the head lines of one request.
pub open spec fn parse_head_model(lines: Seq<Seq<char>>) -> Result<ReqModel, ParseError> {
    if lines.len() == 0 {
        Err(ParseError::MalformedStartLine)
    } else {
        match start_line_parts(lines.first()) {
            None => Err(ParseError::MalformedStartLine),
            Some((verb, path)) => match parse_header_lines(
                lines.drop_first(),
                Map::empty(),
                Map::empty(),
            ) {
                Err(e) => Err(e),
                Ok((h, c)) => Ok(
                    ReqModel {
                        verb,
                        path,
                        headers: h,
                        cookies: c,
                        params: Map::empty(),
                        body: Seq::empty(),
                    },
                ),
            },
        }
    }
}

// ---------------------------------------------------------------------------
// Exec parser: head
// ---------------------------------------------------------------------------

/// Parses the cookie header value `k1=v1; k2=v2; ...` into `cookies`.
fn merge_cookie_header(value: &str, cookies: Dict) -> (r: Result<Dict, ParseError>)
    ensures
        match r {
            Ok(c) => add_cookies(split_two(value@, ';', ' '), cookies@) == Some(c@),
            Err(e) => e == ParseError::MalformedCookie && add_cookies(
                split_two(value@, ';', ' '),
                cookies@,
            ) is None,
        },
{
    let mut cur = cookies;
    let ghost c0 = cur@;
    let mut rest: &str = value;
    let mut done = false;
    let mut bad = false;
    while !done && !bad
        invariant
            bad ==> add_cookies(split_two(value@, ';', ' '), c0) is None,
            !bad && done ==> add_cookies(split_two(value@, ';', ' '), c0) == Some(cur@),
            !bad && !done ==> add_cookies(split_two(value@, ';', ' '), c0) == add_cookies(
                split_two(rest@, ';', ' '),
                cur@,
            ),
        decreases rest@.len() + (if !done && !bad { 1int } else { 0int }),
    {
        proof {
            lemma_split_two_step(rest@, ';', ' ');
            lemma_split_once_two_parts(rest@, ';', ' ');
        }
        match split_once_pair(rest, ';', ' ') {
            Some((entry, tail)) => {
                proof {
                    let pieces = seq![entry@] + split_two(tail@, ';', ' ');
                    assert(pieces.first() == entry@);
                    assert(pieces.drop_first() =~= split_two(tail@, ';', ' '));
                }
                match split_once_char(entry, '=') {
                    None => {
                        bad = true;
                    },
                    Some((k, v)) => {
                        cur.insert(k.to_owned(), v.to_owned());
                        rest = tail;
                    },
                }
            },
            None => {
                // `rest` is the final entry.
                proof {
                    assert(split_two(rest@, ';', ' ') == seq![rest@]);
                    assert(seq![rest@].first() == rest@);
                    assert(seq![rest@].drop_first() =~= Seq::<Seq<char>>::empty());
                }
                match split_once_char(rest, '=') {
                    None => {
                        bad = true;
                    },
                    Some((k, v)) => {
                        let ghost before = cur@;
                        cur.insert(k.to_owned(), v.to_owned());
                        proof {
                            assert(add_cookies(Seq::<Seq<char>>::empty(), before.insert(k@, v@))
                                == Some(cur@));
                        }
                        done = true;
                    },
                }
            },
        }
    }
    if bad {
        return Err(ParseError::MalformedCookie);
    }
    Ok(cur)
}

/// Parses the header lines, which start at index 1 of `lines` and end at an
/// empty line or the end of the input.
fn parse_header_block(lines: &Vec<String>) -> (r: Result<(Dict, Dict), ParseError>)
    requires
        lines@.len() >= 1,
    ensures
        match r {
            Ok(hc) => parse_header_lines(lines.deep_view().skip(1), Map::empty(), Map::empty())
                == Ok::<_, ParseError>((hc.0@, hc.1@)),
            Err(e) => parse_header_lines(lines.deep_view().skip(1), Map::empty(), Map::empty())
                == Err::<(Map<Seq<char>, Seq<char>>, Map<Seq<char>, Seq<char>>), ParseError>(e),
        },
{
    let mut headers = Dict::new();
    let mut cookies = Dict::new();
    let mut failure: Option<ParseError> = None;
    let mut done = false;
    let mut i: usize = 1;
    while i < lines.len() && !done && failure.is_none()
        invariant
            1 <= i <= lines@.len(),
            lines.deep_view().len() == lines@.len(),
            failure matches Some(e) ==> parse_header_lines(
                lines.deep_view().skip(1),
                Map::empty(),
                Map::empty(),
            ) == Err::<(Map<Seq<char>, Seq<char>>, Map<Seq<char>, Seq<char>>), ParseError>(e),
            failure is None && done ==> parse_header_lines(
                lines.deep_view().skip(1),
                Map::empty(),
                Map::empty(),
            ) == Ok::<_, ParseError>((headers@, cookies@)),
            failure is None && !done ==> parse_header_lines(
                lines.deep_view().skip(1),
                Map::empty(),
                Map::empty(),
            ) == parse_header_lines(lines.deep_view().skip(i as int), headers@, cookies@),
        decreases lines@.len() - i,
    {
        proof {
            assert(lines.deep_view().skip(i as int).first() == lines.deep_view()[i as int]);
            assert(lines.deep_view()[i as int] == lines@[i as int]@);
            assert(lines.deep_view().skip(i as int).drop_first() =~= lines.deep_view().skip(
                i + 1,
            ));
        }
        let line: &str = lines[i].as_str();
        if line.is_empty() {
            done = true;
        } else {
            match split_once_pair(line, ':', ' ') {
                None => {
                    failure = Some(ParseError::MalformedHeader);
                },
                Some((name, value)) => {
                    if str_eq(name, "Cookie") {
                        match merge_cookie_header(value, cookies) {
                            Ok(c) => {
                                cookies = c;
                            },
                            Err(e) => {
                                cookies = Dict::new();
                                failure = Some(e);
                            },
                        }
                    } else {
                        headers.insert(name.to_owned(), value.to_owned());
                    }
                },
            }
        }
        i += 1;
    }
    match failure {
        Some(e) => Err(e),
        None => {
            proof {
                if !done {
                    assert(lines.deep_view().skip(i as int) =~= Seq::<Seq<char>>::empty());
                }
            }
            Ok((headers, cookies))
        },
    }
}

/// Parses the start line and header lines of one request. The lines carry
/// no line terminators; an empty line, or the end of the input, ends the
/// headers. The body and params of the result are empty; `attach_body`
/// fills them.
pub fn parse_head(lines: &Vec<String>) -> (r: Result<Request, ParseError>)
    ensures
        match r {
            Ok(req) => parse_head_model(lines.deep_view()) == Ok::<ReqModel, ParseError>(req@),
            Err(e) => parse_head_model(lines.deep_view()) == Err::<ReqModel, ParseError>(e),
        },
{
    if lines.len() == 0 {
        return Err(ParseError::MalformedStartLine);
    }
    proof {
        assert(lines.deep_view().first() == lines@[0]@);
        assert(lines.deep_view().skip(1) =~= lines.deep_view().drop_first());
    }
    let (verb, path): (&str, &str) = match split_once_char(lines[0].as_str(), ' ') {
        None => {
            return Err(ParseError::MalformedStartLine);
        },
        Some((v, rest)) => match split_once_char(rest, ' ') {
            None => (v, rest),
            Some((p, _)) => (v, p),
        },
    };
    match parse_header_block(lines) {
        Err(e) => Err(e),
        Ok((headers, cookies)) => {
            let req = Request {
                verb: verb.to_owned(),
                path: path.to_owned(),
                headers,
                cookies,
                params: Dict::new(),
                body: String::new(),
            };
            Ok(req)
        },
    }
}

// ---------------------------------------------------------------------------
// Spec model of the body
// ---------------------------------------------------------------------------

/// How many bytes a string occupies on the wire.
pub open spec fn byte_len(s: Seq<char>) -> nat {
    vstd::utf8::encode_utf8(s).len()
}

/// The declared body length: absent, a valid decimal number of bytes, or
/// ill-formed.
pub open spec fn content_length_model(headers: Map<Seq<char>, Seq<char>>) -> Result<
    Option<nat>,
    ParseError,
> {
    if !headers.contains_key("Content-Length"@) {
        Ok(None)
    } else {
        let v = headers["Content-Length"@];
        if v.len() > 0 && all_digits(v) && dec_value(v) <= usize::MAX {
            Ok(Some(dec_value(v)))
        } else {
            Err(ParseError::MalformedContentLength)
        }
    }
}

/// Inserts `pairs` into `params` in order, so a later pair wins.
pub open spec fn merge_params(
    params: Map<Seq<char>, Seq<char>>,
    pairs: Seq<(Seq<char>, Seq<char>)>,
) -> Map<Seq<char>, Seq<char>>
    decreases pairs.len(),
{
    if pairs.len() == 0 {
        params
    } else {
        merge_params(params.insert(pairs.first().0, pairs.first().1), pairs.drop_first())
    }
}

/// Each `k=v` piece of a form body as a pair; `None` when a piece has no
/// `=`.
pub open spec fn pairs_of_pieces(pieces: Seq<Seq<char>>) -> Option<Seq<(Seq<char>, Seq<char>)>>
    decreases pieces.len(),
{
    if pieces.len() == 0 {
        Some(Seq::empty())
    } else {
        match split_once_ch(pieces.first(), '=') {
            None => None,
            Some(p) => match pairs_of_pieces(pieces.drop_first()) {
                None => None,
                Some(ps) => Some(seq![p] + ps),
            },
        }
    }
}

/// The pairs of a `application/x-www-form-urlencoded` body.
pub open spec fn form_pairs(body: Seq<char>) -> Option<Seq<(Seq<char>, Seq<char>)>> {
    pairs_of_pieces(split_ch(body, '&'))
}

/// The model of attaching the body text that the transport read. `body` is
/// what arrived: at most the declared length; fewer bytes mean the peer
/// closed early. A nonempty body is decoded into params by content type;
/// an undeclared or unrecognized content type leaves it raw.
pub open spec fn attach_body_model(m: ReqModel, body: Seq<char>) -> Result<ReqModel, ParseError> {
    match content_length_model(m.headers) {
        Err(e) => Err(e),
        Ok(opt) => match opt {
            None => Ok(m),
            Some(n) => if byte_len(body) < n {
                Err(ParseError::IncompleteBody)
            } else {
                let m2 = ReqModel { body: body, ..m };
                if body.len() == 0 {
                    Ok(m2)
                } else if m.headers.contains_key("Content-Type"@) && m.headers["Content-Type"@]
                    == "application/x-www-form-urlencoded"@ {
                    match form_pairs(body) {
                        None => Err(ParseError::MalformedFormBody),
                        Some(ps) => Ok(ReqModel { params: merge_params(m.params, ps), ..m2 }),
                    }
                } else if m.headers.contains_key("Content-Type"@) && m.headers["Content-Type"@]
                    == "application/json"@ {
                    match json_string_pairs(body) {
                        None => Err(ParseError::MalformedJsonBody),
                        Some(ps) => Ok(ReqModel { params: merge_params(m.params, ps), ..m2 }),
                    }
                } else {
                    Ok(m2)
                }
            },
        },
    }
}

/// The model of parsing one whole request.
pub open spec fn parse_request_model(lines: Seq<Seq<char>>, body: Seq<char>) -> Result<
    ReqModel,
    ParseError,
> {
    match parse_head_model(lines) {
        Err(e) => Err(e),
        Ok(m) => attach_body_model(m, body),
    }
}

// ---------------------------------------------------------------------------
// Exec parser: body
// ---------------------------------------------------------------------------

/// Decodes a form body `k1=v1&k2=v2&...` into `params`.
fn merge_form_body(body: &str, params: &mut Dict) -> (r: Result<(), ParseError>)
    ensures
        match r {
            Ok(()) => form_pairs(body@) matches Some(ps) && final(params)@ == merge_params(
                old(params)@,
                ps,
            ),
            Err(e) => e == ParseError::MalformedFormBody && form_pairs(body@) is None,
        },
{
    let ghost p0 = params@;
    let mut rest: &str = body;
    let mut done = false;
    let mut bad = false;
    while !done && !bad
        invariant
            bad ==> form_pairs(body@) is None,
            !bad && done ==> (form_pairs(body@) matches Some(ps) && merge_params(p0, ps)
                == params@),
            !bad && !done ==> match pairs_of_pieces(split_ch(rest@, '&')) {
                None => form_pairs(body@) is None,
                Some(ps) => form_pairs(body@) matches Some(all) && merge_params(p0, all)
                    == merge_params(params@, ps),
            },
        decreases rest@.len() + (if !done && !bad { 1int } else { 0int }),
    {
        proof {
            lemma_split_ch_step(rest@, '&');
            lemma_split_once_ch_parts(rest@, '&');
        }
        match split_once_char(rest, '&') {
            Some((piece, tail)) => {
                proof {
                    let pieces = seq![piece@] + split_ch(tail@, '&');
                    assert(pieces.first() == piece@);
                    assert(pieces.drop_first() =~= split_ch(tail@, '&'));
                }
                match split_once_char(piece, '=') {
                    None => {
                        bad = true;
                    },
                    Some((k, v)) => {
                        proof {
                            if pairs_of_pieces(split_ch(tail@, '&')) is Some {
                                let ps = pairs_of_pieces(split_ch(tail@, '&'))->0;
                                let p = (k@, v@);
                                assert((seq![p] + ps).first() == p);
                                assert((seq![p] + ps).drop_first() =~= ps);
                            }
                        }
                        params.insert(k.to_owned(), v.to_owned());
                        rest = tail;
                    },
                }
            },
            None => {
                // `rest` is the final piece.
                proof {
                    assert(split_ch(rest@, '&') == seq![rest@]);
                    assert(seq![rest@].first() == rest@);
                    assert(seq![rest@].drop_first() =~= Seq::<Seq<char>>::empty());
                }
                match split_once_char(rest, '=') {
                    None => {
                        bad = true;
                    },
                    Some((k, v)) => {
                        let ghost before = params@;
                        proof {
                            let p = (k@, v@);
                            let one = seq![p] + Seq::<(Seq<char>, Seq<char>)>::empty();
                            assert(pairs_of_pieces(Seq::<Seq<char>>::empty()) == Some(
                                Seq::<(Seq<char>, Seq<char>)>::empty(),
                            ));
                            assert(pairs_of_pieces(seq![rest@]) == Some(one));
                            assert(one.first() == p);
                            assert(one.drop_first() =~= Seq::<(Seq<char>, Seq<char>)>::empty());
                            assert(merge_params(before, one) == merge_params(
                                before.insert(k@, v@),
                                one.drop_first(),
                            ));
                        }
                        params.insert(k.to_owned(), v.to_owned());
                        done = true;
                    },
                }
            },
        }
    }
    if bad {
        return Err(ParseError::MalformedFormBody);
    }
    Ok(())
}

/// Decodes a JSON body, which must be a flat object of string values, into
/// `params`.
fn merge_json_body(body: &str, params: &mut Dict) -> (r: Result<(), ParseError>)
    ensures
        match r {
            Ok(()) => json_string_pairs(body@) matches Some(ps) && final(params)@ == merge_params(
                old(params)@,
                ps,
            ),
            Err(e) => e == ParseError::MalformedJsonBody && json_string_pairs(body@) is None,
        },
{
    let pairs = match parse_json_pairs(body) {
        None => {
            return Err(ParseError::MalformedJsonBody);
        },
        Some(v) => v,
    };
    let ghost p0 = params@;
    let ghost ps = pairs.deep_view();
    let n = pairs.len();
    let mut i: usize = 0;
    proof {
        assert(ps.skip(0) =~= ps);
    }
    while i < n
        invariant
            i <= n,
            n == pairs@.len(),
            ps == pairs.deep_view(),
            ps.len() == pairs@.len(),
            merge_params(p0, ps) == merge_params(params@, ps.skip(i as int)),
        decreases n - i,
    {
        proof {
            assert(ps.skip(i as int).first() == ps[i as int]);
            assert(ps[i as int] == (pairs@[i as int].0@, pairs@[i as int].1@));
            assert(ps.skip(i as int).drop_first() =~= ps.skip(i + 1));
        }
        let k = pairs[i].0.clone();
        let v = pairs[i].1.clone();
        params.insert(k, v);
        i += 1;
    }
    proof {
        assert(ps.skip(n as int) =~= Seq::<(Seq<char>, Seq<char>)>::empty());
    }
    Ok(())
}

/// Attaches the body text that the transport read for this request and
/// decodes it into parameters by content type. The transport hands over at
/// most the declared number of bytes; fewer mean the peer closed early,
/// which is the `IncompleteBody` failure.
pub fn attach_body(req: Request, body: String) -> (r: Result<Request, ParseError>)
    ensures
        match r {
            Ok(req2) => attach_body_model(req@, body@) == Ok::<ReqModel, ParseError>(req2@),
            Err(e) => attach_body_model(req@, body@) == Err::<ReqModel, ParseError>(e),
        },
{
    let declared: Option<usize>;
    let mut bad_length = false;
    match req.headers.get("Content-Length") {
        None => {
            declared = None;
        },
        Some(v) => match parse_usize(v.as_str()) {
            None => {
                declared = None;
                bad_length = true;
            },
            Some(n) => {
                declared = Some(n);
            },
        },
    }
    if bad_length {
        return Err(ParseError::MalformedContentLength);
    }
    let n = match declared {
        None => {
            return Ok(req);
        },
        Some(n) => n,
    };
    let blen = body.as_str().as_bytes().len();
    proof {
        broadcast use vstd::slice::axiom_spec_len;

        assert(blen == byte_len(body@));
    }
    if blen < n {
        return Err(ParseError::IncompleteBody);
    }
    let mut req = req;
    req.body = body;
    if req.body.as_str().is_empty() {
        return Ok(req);
    }
    let is_form: bool;
    let is_json: bool;
    match req.headers.get("Content-Type") {
        None => {
            is_form = false;
            is_json = false;
        },
        Some(ct) => {
            is_form = str_eq(ct.as_str(), "application/x-www-form-urlencoded");
            is_json = !is_form && str_eq(ct.as_str(), "application/json");
        },
    }
    if is_form {
        match merge_form_body_of(&mut req) {
            Ok(()) => Ok(req),
            Err(e) => Err(e),
        }
    } else if is_json {
        match merge_json_body_of(&mut req) {
            Ok(()) => Ok(req),
            Err(e) => Err(e),
        }
    } else {
        Ok(req)
    }
}

/// Form-decodes a request's own body into its params.
fn merge_form_body_of(req: &mut Request) -> (r: Result<(), ParseError>)
    ensures
        match r {
            Ok(()) => form_pairs(old(req).body@) matches Some(ps) && final(req).verb == old(
                req,
            ).verb && final(req).path == old(req).path && final(req).headers == old(req).headers
                && final(req).cookies == old(req).cookies && final(req).body == old(req).body
                && final(req).params@ == merge_params(old(req).params@, ps),
            Err(e) => e == ParseError::MalformedFormBody && form_pairs(old(req).body@) is None,
        },
{
    merge_form_body(req.body.as_str(), &mut req.params)
}

/// JSON-decodes a request's own body into its params.
fn merge_json_body_of(req: &mut Request) -> (r: Result<(), ParseError>)
    ensures
        match r {
            Ok(()) => json_string_pairs(old(req).body@) matches Some(ps) && final(req).verb
                == old(req).verb && final(req).path == old(req).path && final(req).headers == old(
                req,
            ).headers && final(req).cookies == old(req).cookies && final(req).body == old(req).body
                && final(req).params@ == merge_params(old(req).params@, ps),
            Err(e) => e == ParseError::MalformedJsonBody && json_string_pairs(
                old(req).body@,
            ) is None,
        },
{
    merge_json_body(req.body.as_str(), &mut req.params)
}

/// The body length that a parsed head declares: none without a
/// `Content-Length` header, the parsed count with a well-formed one. The
/// transport reads exactly this many bytes before `attach_body`.
pub fn declared_content_length(req: &Request) -> (r: Result<Option<usize>, ParseError>)
    ensures
        match r {
            Ok(opt) => content_length_model(req@.headers) == Ok::<Option<nat>, ParseError>(
                match opt {
                    None => None,
                    Some(n) => Some(n as nat),
                },
            ),
            Err(e) => content_length_model(req@.headers) == Err::<Option<nat>, ParseError>(e),
        },
{
    match req.headers.get("Content-Length") {
        None => Ok(None),
        Some(v) => match parse_usize(v.as_str()) {
            None => Err(ParseError::MalformedContentLength),
            Some(n) => Ok(Some(n)),
        },
    }
}

/// Parses one whole request: the head lines, then the body text that was
/// read for it.
pub fn parse_request(lines: Vec<String>, body: String) -> (r: Result<Request, ParseError>)
    ensures
        match r {
            Ok(req) => parse_request_model(lines.deep_view(), body@) == Ok::<ReqModel, ParseError>(
                req@,
            ),
            Err(e) => parse_request_model(lines.deep_view(), body@) == Err::<ReqModel, ParseError>(
                e,
            ),
        },
{
    match parse_head(&lines) {
        Err(e) => Err(e),
        Ok(req) => attach_body(req, body),
    }
}

} // verus!
