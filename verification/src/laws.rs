//! The laws the parser obeys, stated against the spec model and proved:
//! a form encoding of a parameter list parses back to the same list, and a
//! rendered request head parses back to the verb, path, headers and cookies
//! it was rendered from.

use vstd::prelude::*;
use crate::request::{
    add_cookies, form_pairs, merge_params, pairs_of_pieces, parse_head_model, parse_header_lines,
    start_line_parts, ReqModel,
};
use crate::matcher::task_path_digits;
use crate::persistence::{find_user, User};
use crate::response::{map_get, HandlerError};
use crate::router::post::{login_response_model, login_success_response};
use crate::trusted::bcrypt_accepts;
use crate::strutil::{
    all_digits, dec_rep, dec_value, digit_char, digit_val, is_digit, lemma_split_ch_step,
    lemma_split_once_ch, lemma_split_once_ch_none, lemma_split_once_two, lemma_split_two_step,
    split_ch, split_once_ch, split_once_two, split_two,
};

verus! {

// ---------------------------------------------------------------------------
// Encoding params as application/x-www-form-urlencoded
// ---------------------------------------------------------------------------

pub open spec fn encode_pair(p: (Seq<char>, Seq<char>)) -> Seq<char> {
    p.0 + seq!['='] + p.1
}

/// `k1=v1&k2=v2&...` for a list of pairs.
pub open spec fn encode_form(pairs: Seq<(Seq<char>, Seq<char>)>) -> Seq<char>
    decreases pairs.len(),
{
    if pairs.len() == 0 {
        Seq::empty()
    } else if pairs.len() == 1 {
        encode_pair(pairs.first())
    } else {
        encode_pair(pairs.first()) + seq!['&'] + encode_form(pairs.drop_first())
    }
}

/// Builds the form encoding of a parameter list.
pub fn encode_form_params(pairs: &Vec<(String, String)>) -> (r: String)
    ensures
        r@ == encode_form(pairs.deep_view()),
{
    let n = pairs.len();
    let mut out = String::new();
    let mut i: usize = 0;
    let ghost ps = pairs.deep_view();
    proof {
        assert(ps.len() == pairs@.len());
        assert(ps.take(0) =~= Seq::<(Seq<char>, Seq<char>)>::empty());
    }
    while i < n
        invariant
            i <= n,
            n == pairs@.len(),
            ps == pairs.deep_view(),
            ps.len() == n,
            out@ == encode_form(ps.take(i as int)),
        decreases n - i,
    {
        proof {
            assert(ps[i as int] == (pairs@[i as int].0@, pairs@[i as int].1@));
        }
        if i > 0 {
            out.append("&");
            proof {
                reveal_strlit("&");
                assert("&"@ =~= seq!['&']);
            }
        }
        out.append(pairs[i].0.as_str());
        out.append("=");
        out.append(pairs[i].1.as_str());
        proof {
            reveal_strlit("=");
            assert("="@ =~= seq!['=']);
            lemma_encode_form_snoc(ps, i as int);
            assert(out@ =~= encode_form(ps.take(i + 1)));
        }
        i += 1;
    }
    proof {
        assert(ps.take(n as int) =~= ps);
    }
    out
}

/// Extending the encoded list by one pair appends `&` and that pair (or is
/// just the pair when the list was empty).
proof fn lemma_encode_form_snoc(ps: Seq<(Seq<char>, Seq<char>)>, i: int)
    requires
        0 <= i < ps.len(),
    ensures
        i == 0 ==> encode_form(ps.take(1)) == encode_pair(ps[0]),
        i > 0 ==> encode_form(ps.take(i + 1)) == encode_form(ps.take(i)) + seq!['&'] + encode_pair(
            ps[i],
        ),
    decreases i,
{
    if i == 0 {
        assert(ps.take(1).len() == 1);
        assert(ps.take(1).first() == ps[0]);
    } else {
        lemma_encode_form_snoc(ps.drop_first(), i - 1);
        let a = ps.take(i + 1);
        assert(a.len() > 1);
        assert(a.first() == ps[0]);
        assert(a.drop_first() =~= ps.drop_first().take(i));
        assert(ps.take(i).first() == ps[0]);
        assert(ps.take(i).drop_first() =~= ps.drop_first().take(i - 1));
        assert(ps.drop_first()[i - 1] == ps[i]);
        if i == 1 {
            assert(encode_form(a) == encode_pair(ps[0]) + seq!['&'] + encode_form(
                ps.drop_first().take(1),
            ));
            assert(encode_form(ps.take(1)) == encode_pair(ps[0]));
            assert(encode_form(ps.drop_first().take(1)) == encode_pair(ps[1]));
        } else {
            assert(encode_form(a) == encode_pair(ps[0]) + seq!['&'] + encode_form(
                ps.drop_first().take(i),
            ));
            assert(encode_form(ps.take(i)) == encode_pair(ps[0]) + seq!['&'] + encode_form(
                ps.drop_first().take(i - 1),
            ));
            assert((encode_pair(ps[0]) + seq!['&'] + (encode_form(ps.drop_first().take(i - 1))
                + seq!['&'] + encode_pair(ps[i]))) =~= ((encode_pair(ps[0]) + seq!['&']
                + encode_form(ps.drop_first().take(i - 1))) + seq!['&'] + encode_pair(ps[i])));
        }
    }
}

// ---------------------------------------------------------------------------
// The form round trip
// ---------------------------------------------------------------------------

/// A pair that the encoding keeps intact: no `&` in the key or the value,
/// and no `=` in the key.
pub open spec fn form_safe(p: (Seq<char>, Seq<char>)) -> bool {
    !p.0.contains('&') && !p.0.contains('=') && !p.1.contains('&')
}

/// There is no `&` anywhere in one encoded pair.
proof fn lemma_encode_pair_no_amp(p: (Seq<char>, Seq<char>))
    requires
        form_safe(p),
    ensures
        forall|j: int| 0 <= j < encode_pair(p).len() ==> encode_pair(p)[j] != '&',
{
    let e = encode_pair(p);
    assert forall|j: int| 0 <= j < e.len() implies e[j] != '&' by {
        if j < p.0.len() {
            assert(e[j] == p.0[j]);
            assert(!p.0.contains('&'));
        } else if j == p.0.len() {
            assert(e[j] == '=');
        } else {
            assert(e[j] == p.1[j - p.0.len() - 1]);
            assert(!p.1.contains('&'));
        }
    }
}

/// One encoded pair splits at its `=` back into the key and the value.
proof fn lemma_decode_pair(p: (Seq<char>, Seq<char>))
    requires
        form_safe(p),
    ensures
        split_once_ch(encode_pair(p), '=') == Some((p.0, p.1)),
{
    let e = encode_pair(p);
    let k = p.0.len() as int;
    assert(e[k] == '=');
    assert forall|j: int| 0 <= j < k implies e[j] != '=' by {
        assert(e[j] == p.0[j]);
        assert(!p.0.contains('='));
    }
    lemma_split_once_ch(e, '=', k);
    assert(e.take(k) =~= p.0);
    assert(e.skip(k + 1) =~= p.1);
}

/// Round trip: parsing the form encoding of a nonempty parameter list
/// yields exactly that list, whenever no key holds `&` or `=` and no value
/// holds `&`.
pub proof fn lemma_form_round_trip(pairs: Seq<(Seq<char>, Seq<char>)>)
    requires
        pairs.len() > 0,
        forall|i: int| 0 <= i < pairs.len() ==> form_safe(#[trigger] pairs[i]),
    ensures
        form_pairs(encode_form(pairs)) == Some(pairs),
    decreases pairs.len(),
{
    let e = encode_form(pairs);
    let p0 = pairs.first();
    lemma_encode_pair_no_amp(p0);
    lemma_decode_pair(p0);
    if pairs.len() == 1 {
        assert(e == encode_pair(p0));
        lemma_split_once_ch_none(e, '&');
        lemma_split_ch_step(e, '&');
        assert(split_ch(e, '&') == seq![e]);
        assert(seq![e].first() == e);
        assert(seq![e].drop_first() =~= Seq::<Seq<char>>::empty());
        assert(pairs_of_pieces(Seq::<Seq<char>>::empty()) == Some(
            Seq::<(Seq<char>, Seq<char>)>::empty(),
        ));
        assert(pairs_of_pieces(seq![e]) == Some(
            seq![(p0.0, p0.1)] + Seq::<(Seq<char>, Seq<char>)>::empty(),
        ));
        assert(seq![(p0.0, p0.1)] + Seq::<(Seq<char>, Seq<char>)>::empty() =~= pairs);
    } else {
        let rest = pairs.drop_first();
        let ep = encode_pair(p0);
        let er = encode_form(rest);
        assert(e == ep + seq!['&'] + er);
        let k = ep.len() as int;
        assert(e[k] == '&');
        assert forall|j: int| 0 <= j < k implies e[j] != '&' by {
            assert(e[j] == ep[j]);
        }
        lemma_split_once_ch(e, '&', k);
        assert(e.take(k) =~= ep);
        assert(e.skip(k + 1) =~= er);
        lemma_split_ch_step(e, '&');
        assert(split_ch(e, '&') == seq![ep] + split_ch(er, '&'));
        assert forall|i: int| 0 <= i < rest.len() implies form_safe(#[trigger] rest[i]) by {
            assert(rest[i] == pairs[i + 1]);
        }
        lemma_form_round_trip(rest);
        assert(pairs_of_pieces(split_ch(er, '&')) == Some(rest));
        assert((seq![ep] + split_ch(er, '&')).first() == ep);
        assert((seq![ep] + split_ch(er, '&')).drop_first() =~= split_ch(er, '&'));
        assert(pairs_of_pieces(seq![ep] + split_ch(er, '&')) == Some(seq![(p0.0, p0.1)] + rest));
        assert(seq![(p0.0, p0.1)] + rest =~= pairs);
    }
}

} // verus!

verus! {

// ---------------------------------------------------------------------------
// Rendering a request head, and the parse-recovery law
// ---------------------------------------------------------------------------

pub open spec fn render_header_line(p: (Seq<char>, Seq<char>)) -> Seq<char> {
    p.0 + seq![':', ' '] + p.1
}

/// One line per header pair, in order.
pub open spec fn header_lines_of(headers: Seq<(Seq<char>, Seq<char>)>) -> Seq<Seq<char>>
    decreases headers.len(),
{
    if headers.len() == 0 {
        Seq::empty()
    } else {
        seq![render_header_line(headers.first())] + header_lines_of(headers.drop_first())
    }
}

pub open spec fn render_cookie_entry(p: (Seq<char>, Seq<char>)) -> Seq<char> {
    p.0 + seq!['='] + p.1
}

/// `k1=v1; k2=v2; ...` for a list of cookie pairs.
pub open spec fn render_cookie_value(cookies: Seq<(Seq<char>, Seq<char>)>) -> Seq<char>
    decreases cookies.len(),
{
    if cookies.len() == 0 {
        Seq::empty()
    } else if cookies.len() == 1 {
        render_cookie_entry(cookies.first())
    } else {
        render_cookie_entry(cookies.first()) + seq![';', ' '] + render_cookie_value(
            cookies.drop_first(),
        )
    }
}

/// The entries that the cookie value splits back into.
pub open spec fn cookie_entries_of(cookies: Seq<(Seq<char>, Seq<char>)>) -> Seq<Seq<char>>
    decreases cookies.len(),
{
    if cookies.len() == 0 {
        Seq::empty()
    } else {
        seq![render_cookie_entry(cookies.first())] + cookie_entries_of(cookies.drop_first())
    }
}

/// The head lines of a request: the start line, one line per header, and,
/// when there are cookies, one `Cookie` line carrying them all.
pub open spec fn render_head(
    verb: Seq<char>,
    path: Seq<char>,
    headers: Seq<(Seq<char>, Seq<char>)>,
    cookies: Seq<(Seq<char>, Seq<char>)>,
) -> Seq<Seq<char>> {
    seq![verb + seq![' '] + path] + header_lines_of(headers) + if cookies.len() == 0 {
        Seq::<Seq<char>>::empty()
    } else {
        seq!["Cookie"@ + seq![':', ' '] + render_cookie_value(cookies)]
    }
}

/// A header pair that rendering keeps intact: no `:` in the name, and the
/// name is not the cookie header's.
pub open spec fn header_safe(p: (Seq<char>, Seq<char>)) -> bool {
    !p.0.contains(':') && p.0 != "Cookie"@
}

/// A cookie pair that rendering keeps intact: no `=` or `;` in the name,
/// and no `;` in the value.
pub open spec fn cookie_safe(p: (Seq<char>, Seq<char>)) -> bool {
    !p.0.contains('=') && !p.0.contains(';') && !p.1.contains(';')
}

/// A rendered header line splits at its `": "` back into name and value.
proof fn lemma_decode_header_line(p: (Seq<char>, Seq<char>))
    requires
        header_safe(p),
    ensures
        split_once_two(render_header_line(p), ':', ' ') == Some((p.0, p.1)),
{
    let e = render_header_line(p);
    let k = p.0.len() as int;
    assert(e[k] == ':');
    assert(e[k + 1] == ' ');
    assert forall|j: int| 0 <= j < k implies !((#[trigger] e[j]) == ':' && e[j + 1] == ' ') by {
        assert(e[j] == p.0[j]);
        assert(!p.0.contains(':'));
    }
    lemma_split_once_two(e, ':', ' ', k);
    assert(e.take(k) =~= p.0);
    assert(e.skip(k + 2) =~= p.1);
}

/// There is no `;` anywhere in one rendered cookie entry.
proof fn lemma_cookie_entry_no_semi(p: (Seq<char>, Seq<char>))
    requires
        cookie_safe(p),
    ensures
        forall|j: int|
            0 <= j < render_cookie_entry(p).len() ==> (#[trigger] render_cookie_entry(p)[j])
                != ';',
{
    let e = render_cookie_entry(p);
    assert forall|j: int| 0 <= j < e.len() implies (#[trigger] e[j]) != ';' by {
        if j < p.0.len() {
            assert(e[j] == p.0[j]);
            assert(!p.0.contains(';'));
        } else if j == p.0.len() {
            assert(e[j] == '=');
        } else {
            assert(e[j] == p.1[j - p.0.len() - 1]);
            assert(!p.1.contains(';'));
        }
    }
}

/// A rendered cookie entry splits at its `=` back into name and value.
proof fn lemma_decode_cookie_entry(p: (Seq<char>, Seq<char>))
    requires
        cookie_safe(p),
    ensures
        split_once_ch(render_cookie_entry(p), '=') == Some((p.0, p.1)),
{
    let e = render_cookie_entry(p);
    let k = p.0.len() as int;
    assert(e[k] == '=');
    assert forall|j: int| 0 <= j < k implies e[j] != '=' by {
        assert(e[j] == p.0[j]);
        assert(!p.0.contains('='));
    }
    lemma_split_once_ch(e, '=', k);
    assert(e.take(k) =~= p.0);
    assert(e.skip(k + 1) =~= p.1);
}

/// The rendered cookie value splits on `"; "` back into its entries.
proof fn lemma_split_cookie_value(cookies: Seq<(Seq<char>, Seq<char>)>)
    requires
        cookies.len() > 0,
        forall|i: int| 0 <= i < cookies.len() ==> cookie_safe(#[trigger] cookies[i]),
    ensures
        split_two(render_cookie_value(cookies), ';', ' ') == cookie_entries_of(cookies),
    decreases cookies.len(),
{
    let v = render_cookie_value(cookies);
    let e0 = render_cookie_entry(cookies.first());
    lemma_cookie_entry_no_semi(cookies.first());
    if cookies.len() == 1 {
        assert(v == e0);
        crate::strutil::lemma_split_once_two_none(v, ';', ' ');
        lemma_split_two_step(v, ';', ' ');
        assert(split_two(v, ';', ' ') == seq![v]);
        assert(cookie_entries_of(cookies) =~= seq![v]) by {
            assert(cookie_entries_of(cookies.drop_first()) =~= Seq::<Seq<char>>::empty());
        }
    } else {
        let rest = cookies.drop_first();
        let rv = render_cookie_value(rest);
        assert(v == e0 + seq![';', ' '] + rv);
        let k = e0.len() as int;
        assert(v[k] == ';');
        assert(v[k + 1] == ' ');
        assert forall|j: int| 0 <= j < k implies !((#[trigger] v[j]) == ';' && v[j + 1] == ' ')
            by {
            assert(v[j] == e0[j]);
        }
        lemma_split_once_two(v, ';', ' ', k);
        assert(v.take(k) =~= e0);
        assert(v.skip(k + 2) =~= rv);
        lemma_split_two_step(v, ';', ' ');
        assert forall|i: int| 0 <= i < rest.len() implies cookie_safe(#[trigger] rest[i]) by {
            assert(rest[i] == cookies[i + 1]);
        }
        lemma_split_cookie_value(rest);
        assert(split_two(v, ';', ' ') == seq![e0] + cookie_entries_of(rest));
        assert(seq![e0] + cookie_entries_of(rest) =~= cookie_entries_of(cookies));
    }
}

/// Folding the rendered entries into a map adds exactly the pairs, in
/// order.
proof fn lemma_add_cookies_render(
    cookies: Seq<(Seq<char>, Seq<char>)>,
    acc: Map<Seq<char>, Seq<char>>,
)
    requires
        forall|i: int| 0 <= i < cookies.len() ==> cookie_safe(#[trigger] cookies[i]),
    ensures
        add_cookies(cookie_entries_of(cookies), acc) == Some(merge_params(acc, cookies)),
    decreases cookies.len(),
{
    if cookies.len() > 0 {
        let p0 = cookies.first();
        lemma_decode_cookie_entry(p0);
        let entries = cookie_entries_of(cookies);
        assert(entries.first() == render_cookie_entry(p0));
        assert(entries.drop_first() =~= cookie_entries_of(cookies.drop_first()));
        assert forall|i: int|
            0 <= i < cookies.drop_first().len() implies cookie_safe(
            #[trigger] cookies.drop_first()[i],
        ) by {
            assert(cookies.drop_first()[i] == cookies[i + 1]);
        }
        lemma_add_cookies_render(cookies.drop_first(), acc.insert(p0.0, p0.1));
    }
}

/// Parsing the rendered header lines, followed by anything else, adds
/// exactly the header pairs and goes on with the rest.
proof fn lemma_parse_rendered_headers(
    headers: Seq<(Seq<char>, Seq<char>)>,
    tail: Seq<Seq<char>>,
    h: Map<Seq<char>, Seq<char>>,
    c: Map<Seq<char>, Seq<char>>,
)
    requires
        forall|i: int| 0 <= i < headers.len() ==> header_safe(#[trigger] headers[i]),
    ensures
        parse_header_lines(header_lines_of(headers) + tail, h, c) == parse_header_lines(
            tail,
            merge_params(h, headers),
            c,
        ),
    decreases headers.len(),
{
    if headers.len() == 0 {
        assert(header_lines_of(headers) + tail =~= tail);
    } else {
        let p0 = headers.first();
        let line0 = render_header_line(p0);
        let lines = header_lines_of(headers) + tail;
        assert(lines.first() == line0);
        assert(line0.len() > 0);
        lemma_decode_header_line(p0);
        assert(p0.0 != "Cookie"@);
        assert(lines.drop_first() =~= header_lines_of(headers.drop_first()) + tail);
        assert forall|i: int|
            0 <= i < headers.drop_first().len() implies header_safe(
            #[trigger] headers.drop_first()[i],
        ) by {
            assert(headers.drop_first()[i] == headers[i + 1]);
        }
        lemma_parse_rendered_headers(headers.drop_first(), tail, h.insert(p0.0, p0.1), c);
    }
}

/// Head recovery: parsing the rendered head lines of any request yields
/// exactly the verb, path, headers and cookies it was rendered from,
/// whenever the verb and path hold no space, no header name holds `:` or is
/// the cookie header's name, and no cookie name or value holds `;` (nor `=`
/// in a name). Later duplicates of a name win, in the rendering order.
pub proof fn lemma_parse_recovers_head(
    verb: Seq<char>,
    path: Seq<char>,
    headers: Seq<(Seq<char>, Seq<char>)>,
    cookies: Seq<(Seq<char>, Seq<char>)>,
)
    requires
        !verb.contains(' '),
        !path.contains(' '),
        forall|i: int| 0 <= i < headers.len() ==> header_safe(#[trigger] headers[i]),
        forall|i: int| 0 <= i < cookies.len() ==> cookie_safe(#[trigger] cookies[i]),
    ensures
        parse_head_model(render_head(verb, path, headers, cookies)) == Ok::<ReqModel, crate::request::ParseError>(
            (ReqModel {
                verb: verb,
                path: path,
                headers: merge_params(Map::empty(), headers),
                cookies: merge_params(Map::empty(), cookies),
                params: Map::empty(),
                body: Seq::empty(),
            }),
        ),
{
    let lines = render_head(verb, path, headers, cookies);
    let start = verb + seq![' '] + path;
    assert(lines.first() == start);
    // The start line splits at its first space into the verb and the path.
    let k = verb.len() as int;
    assert(start[k] == ' ');
    assert forall|j: int| 0 <= j < k implies start[j] != ' ' by {
        assert(start[j] == verb[j]);
        assert(!verb.contains(' '));
    }
    lemma_split_once_ch(start, ' ', k);
    assert(start.take(k) =~= verb);
    assert(start.skip(k + 1) =~= path);
    assert forall|j: int| 0 <= j < path.len() implies path[j] != ' ' by {
        assert(!path.contains(' '));
    }
    lemma_split_once_ch_none(path, ' ');
    assert(start_line_parts(start) == Some((verb, path)));
    // The header lines add the header pairs; the cookie line, when present,
    // adds the cookie pairs.
    let tail = if cookies.len() == 0 {
        Seq::<Seq<char>>::empty()
    } else {
        seq!["Cookie"@ + seq![':', ' '] + render_cookie_value(cookies)]
    };
    assert(lines.drop_first() =~= header_lines_of(headers) + tail);
    lemma_parse_rendered_headers(headers, tail, Map::empty(), Map::empty());
    let mh = merge_params(Map::empty(), headers);
    assert(parse_header_lines(lines.drop_first(), Map::empty(), Map::empty())
        == parse_header_lines(tail, mh, Map::empty()));
    let mc = merge_params(Map::<Seq<char>, Seq<char>>::empty(), cookies);
    if cookies.len() == 0 {
        assert(parse_header_lines(tail, mh, Map::empty()) == Ok::<_, crate::request::ParseError>(
            (mh, Map::<Seq<char>, Seq<char>>::empty()),
        ));
        assert(mc == Map::<Seq<char>, Seq<char>>::empty());
    } else {
        let cline = "Cookie"@ + seq![':', ' '] + render_cookie_value(cookies);
        assert(tail.first() == cline);
        reveal_strlit("Cookie");
        assert(cline.len() > 0);
        let ck = "Cookie"@.len() as int;
        assert(cline[ck] == ':');
        assert(cline[ck + 1] == ' ');
        assert forall|j: int| 0 <= j < ck implies !((#[trigger] cline[j]) == ':' && cline[j + 1]
            == ' ') by {
            assert(cline[j] == "Cookie"@[j]);
        }
        lemma_split_once_two(cline, ':', ' ', ck);
        assert(cline.take(ck) =~= "Cookie"@);
        assert(cline.skip(ck + 2) =~= render_cookie_value(cookies));
        lemma_split_cookie_value(cookies);
        lemma_add_cookies_render(cookies, Map::empty());
        assert(split_once_two(cline, ':', ' ') == Some(("Cookie"@, render_cookie_value(cookies))));
        assert(add_cookies(split_two(render_cookie_value(cookies), ';', ' '), Map::empty())
            == Some(mc));
        assert(tail.drop_first() =~= Seq::<Seq<char>>::empty());
        assert(parse_header_lines(tail, mh, Map::empty()) == parse_header_lines(
            Seq::<Seq<char>>::empty(),
            mh,
            mc,
        ));
        assert(parse_header_lines(Seq::<Seq<char>>::empty(), mh, mc) == Ok::<
            _,
            crate::request::ParseError,
        >((mh, mc)));
    }
    assert(parse_head_model(lines) == Ok::<ReqModel, crate::request::ParseError>(
        (ReqModel {
            verb: verb,
            path: path,
            headers: mh,
            cookies: mc,
            params: Map::empty(),
            body: Seq::empty(),
        }),
    ));
}

} // verus!

verus! {

// ---------------------------------------------------------------------------
// Rendered task ids are addressable
// ---------------------------------------------------------------------------

/// A rendered decimal number is nonempty, all digits, and reads back to the
/// same value.
pub proof fn lemma_dec_rep_round_trip(n: nat)
    ensures
        dec_rep(n).len() >= 1,
        all_digits(dec_rep(n)),
        dec_value(dec_rep(n)) == n,
    decreases n,
{
    if n < 10 {
        let s = dec_rep(n);
        assert(s == seq![digit_char(n)]);
        assert(s.drop_last() =~= Seq::<char>::empty());
        assert(dec_value(Seq::<char>::empty()) == 0);
        assert(s.last() == digit_char(n));
        assert(is_digit(digit_char(n)));
        assert(digit_val(digit_char(n)) == n);
        assert(dec_value(s) == dec_value(s.drop_last()) * 10 + digit_val(s.last()));
    } else {
        lemma_dec_rep_round_trip(n / 10);
        let s = dec_rep(n);
        let head = dec_rep(n / 10);
        assert(s == head.push(digit_char(n % 10)));
        assert(s.drop_last() =~= head);
        assert(s.last() == digit_char(n % 10));
        assert(is_digit(digit_char(n % 10)));
        assert(digit_val(digit_char(n % 10)) == n % 10);
        assert forall|i: int| 0 <= i < s.len() implies is_digit(#[trigger] s[i]) by {
            if i < head.len() {
                assert(s[i] == head[i]);
            }
        }
    }
}

/// Every rendered task id is addressable: the path built from it matches
/// the task constraint, captures exactly the rendered digits, and those
/// digits read back to the id. So a task the list markup names can always
/// be reached by the delete route.
pub proof fn lemma_task_id_addressable(n: u32)
    ensures
        task_path_digits("/tasks/"@ + dec_rep(n as nat)) == Some(dec_rep(n as nat)),
        dec_value(dec_rep(n as nat)) == n,
{
    lemma_dec_rep_round_trip(n as nat);
    let path = "/tasks/"@ + dec_rep(n as nat);
    assert(path.take("/tasks/"@.len() as int) =~= "/tasks/"@);
    assert(path.skip("/tasks/"@.len() as int) =~= dec_rep(n as nat));
}

} // verus!

verus! {

// ---------------------------------------------------------------------------
// A freshly registered account can log in
// ---------------------------------------------------------------------------

/// Appending a user under a name that the store does not yet hold makes
/// that user the one the name finds.
proof fn lemma_find_user_push(users: Seq<User>, user: User)
    requires
        find_user(users, user.username@) is None,
    ensures
        find_user(users.push(user), user.username@) == Some(user),
    decreases users.len(),
{
    let s = users.push(user);
    if users.len() == 0 {
        assert(s.len() == 1);
        assert(s.first() == user);
        assert(s.first().username@ == user.username@);
    } else {
        assert(s.first() == users.first());
        assert(users.first().username@ != user.username@);
        assert(s.drop_first() =~= users.drop_first().push(user));
        lemma_find_user_push(users.drop_first(), user);
    }
}

/// Signup then login: a user appended under a fresh name, with a password
/// hash that bcrypt accepts for the submitted password — exactly what a
/// successful signup stores — is let in by the login handler with the
/// session-opening redirect.
pub proof fn lemma_signup_then_login(
    users: Seq<User>,
    user: User,
    params: Map<Seq<char>, Seq<char>>,
)
    requires
        find_user(users, user.username@) is None,
        map_get(params, "username"@) == Some(user.username@),
        map_get(params, "password"@) matches Some(p) && bcrypt_accepts(p, user.password@),
    ensures
        login_response_model(params, users.push(user)) == Ok::<Seq<char>, HandlerError>(
            login_success_response(user.username@),
        ),
{
    lemma_find_user_push(users, user);
}

} // verus!
