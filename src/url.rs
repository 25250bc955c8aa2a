//! Tile URL construction: placeholder substitution in a template and a
//! percent-encoded query string built from an ordered parameter list.
use vstd::prelude::*;
use vstd::utf8::*;
use crate::tile_index::TileIndex;

verus! {

broadcast use vstd::string::group_string_axioms;

/// The character of a decimal digit.
pub open spec fn digit_char(d: nat) -> char {
    seq!['0', '1', '2', '3', '4', '5', '6', '7', '8', '9'][d as int]
}

/// The decimal digits of a natural number, most significant first.
pub open spec fn decimal_digits(n: nat) -> Seq<char>
    decreases n,
{
    if n < 10 {
        seq![digit_char(n)]
    } else {
        decimal_digits(n / 10).push(digit_char(n % 10))
    }
}

/// The decimal representation of an integer, with a leading `-` when negative.
pub open spec fn decimal(n: int) -> Seq<char> {
    if n < 0 {
        seq!['-'] + decimal_digits((-n) as nat)
    } else {
        decimal_digits(n as nat)
    }
}

/// `t` holds the placeholder `{c}` starting at position `i`.
pub open spec fn placeholder_at(t: Seq<char>, i: int, c: char) -> bool {
    0 <= i && i + 3 <= t.len() && t[i] == '{' && t[i + 1] == c && t[i + 2] == '}'
}

/// `t` holds one of the placeholders `{z}`, `{x}`, `{y}` starting at position `i`.
pub open spec fn any_placeholder_at(t: Seq<char>, i: int) -> bool {
    placeholder_at(t, i, 'z') || placeholder_at(t, i, 'x') || placeholder_at(t, i, 'y')
}

/// The template `t` with each placeholder `{z}`, `{x}`, `{y}`, read left to
/// right, replaced by `z`, `x` and `y` respectively.
pub open spec fn substitute(t: Seq<char>, z: Seq<char>, x: Seq<char>, y: Seq<char>) -> Seq<char>
    decreases t.len(),
{
    if t.len() == 0 {
        Seq::empty()
    } else if placeholder_at(t, 0, 'z') {
        z + substitute(t.subrange(3, t.len() as int), z, x, y)
    } else if placeholder_at(t, 0, 'x') {
        x + substitute(t.subrange(3, t.len() as int), z, x, y)
    } else if placeholder_at(t, 0, 'y') {
        y + substitute(t.subrange(3, t.len() as int), z, x, y)
    } else {
        seq![t[0]] + substitute(t.subrange(1, t.len() as int), z, x, y)
    }
}

/// The template with the tile's zoom, column and row written in decimal.
pub open spec fn substitute_index(t: Seq<char>, index: TileIndex) -> Seq<char> {
    substitute(t, decimal(index.z as int), decimal(index.x as int), decimal(index.y as int))
}

/// A byte that percent-encoding leaves as it is: ASCII letters, digits and `-._~`.
pub open spec fn is_unreserved(b: u8) -> bool {
    (48 <= b <= 57) || (65 <= b <= 90) || (97 <= b <= 122) || b == 45 || b == 46 || b == 95
        || b == 126
}

/// The upper-case hexadecimal digit of a value below 16.
pub open spec fn hex_digit(d: int) -> char {
    seq!['0', '1', '2', '3', '4', '5', '6', '7', '8', '9', 'A', 'B', 'C', 'D', 'E', 'F'][d]
}

/// The value of a hexadecimal digit of either case (0 for any other character).
pub open spec fn hex_value(c: char) -> int {
    if '0' <= c && c <= '9' {
        c as int - '0' as int
    } else if 'A' <= c && c <= 'F' {
        c as int - 'A' as int + 10
    } else if 'a' <= c && c <= 'f' {
        c as int - 'a' as int + 10
    } else {
        0
    }
}

/// One byte percent-encoded: itself when unreserved, else `%` and two hex digits.
pub open spec fn percent_encode_byte(b: u8) -> Seq<char> {
    if is_unreserved(b) {
        seq![b as char]
    } else {
        seq!['%', hex_digit(b as int / 16), hex_digit(b as int % 16)]
    }
}

/// Percent-encoding of a byte sequence, byte by byte.
pub open spec fn percent_encode(bs: Seq<u8>) -> Seq<char>
    decreases bs.len(),
{
    if bs.len() == 0 {
        Seq::empty()
    } else {
        percent_encode_byte(bs[0]) + percent_encode(bs.drop_first())
    }
}

/// Percent-decoding: `%` with the two characters after it gives one byte, any
/// other character gives its own code.
pub open spec fn percent_decode(s: Seq<char>) -> Seq<u8>
    decreases s.len(),
{
    if s.len() == 0 {
        Seq::empty()
    } else if s[0] == '%' && s.len() >= 3 {
        seq![(hex_value(s[1]) * 16 + hex_value(s[2])) as u8] + percent_decode(
            s.subrange(3, s.len() as int),
        )
    } else {
        seq![(s[0] as u32) as u8] + percent_decode(s.drop_first())
    }
}

/// A string as it stands in a URL query: its UTF-8 bytes, percent-encoded.
pub open spec fn url_component(s: Seq<char>) -> Seq<char> {
    percent_encode(encode_utf8(s))
}


/// Appends the decimal digits of `n`.
fn push_decimal_digits(out: &mut String, n: u64)
    ensures
        final(out)@ == old(out)@ + decimal_digits(n as nat),
    decreases n,
{
    if n >= 10 {
        push_decimal_digits(out, n / 10);
    }
    let d: usize = (n % 10) as usize;
    let digits = "0123456789";
    proof {
        reveal_strlit("0123456789");
    }
    let one = digits.substring_char(d, d + 1);
    assert(one@ =~= seq![digit_char(d as nat)]);
    out.append(one);
    assert(final(out)@ =~= old(out)@ + decimal_digits(n as nat));
}

/// Appends the decimal representation of `n`.
fn push_decimal(out: &mut String, n: i64)
    ensures
        final(out)@ == old(out)@ + decimal(n as int),
{
    if n < 0 {
        let minus = "-";
        proof {
            reveal_strlit("-");
        }
        out.append(minus);
        let m: u64 = if n == i64::MIN {
            9223372036854775808u64
        } else {
            (-n) as u64
        };
        push_decimal_digits(out, m);
        assert(final(out)@ =~= old(out)@ + decimal(n as int));
    } else {
        push_decimal_digits(out, n as u64);
    }
}

/// What the placeholder `{tag}` stands for.
pub open spec fn placeholder_value(tag: char, z: Seq<char>, x: Seq<char>, y: Seq<char>) -> Seq<char> {
    if tag == 'z' {
        z
    } else if tag == 'x' {
        x
    } else {
        y
    }
}

/// Appends the decimal value that the placeholder `{tag}` stands for.
fn push_placeholder(out: &mut String, tag: char, index: &TileIndex)
    ensures
        final(out)@ == old(out)@ + placeholder_value(
            tag,
            decimal(index.z as int),
            decimal(index.x as int),
            decimal(index.y as int),
        ),
{
    if tag == 'z' {
        push_decimal(out, index.z as i64);
    } else if tag == 'x' {
        push_decimal(out, index.x as i64);
    } else {
        push_decimal(out, index.y as i64);
    }
}

/// The template with every `{z}`, `{x}` and `{y}` replaced by the decimal zoom,
/// column and row of `index`.
pub fn substitute_placeholders(template: &str, index: &TileIndex) -> (r: String)
    ensures
        r@ == substitute_index(template@, *index),
{
    let ghost t = template@;
    let ghost zs = decimal(index.z as int);
    let ghost xs = decimal(index.x as int);
    let ghost ys = decimal(index.y as int);
    let n = template.unicode_len();
    let mut out = String::new();
    let mut i: usize = 0;
    assert(t.subrange(0, n as int) =~= t);
    while i < n
        invariant
            n == t.len(),
            t == template@,
            zs == decimal(index.z as int),
            xs == decimal(index.x as int),
            ys == decimal(index.y as int),
            i <= n,
            out@ + substitute(t.subrange(i as int, n as int), zs, xs, ys) == substitute(t, zs, xs, ys),
        decreases n - i,
    {
        let ghost rest = t.subrange(i as int, n as int);
        let c = template.get_char(i);
        let mut tag: char = ' ';
        if c == '{' && n - i > 2 && template.get_char(i + 2) == '}' {
            tag = template.get_char(i + 1);
        }
        if tag == 'z' || tag == 'x' || tag == 'y' {
            assert(rest.subrange(3, rest.len() as int) =~= t.subrange(i + 3, n as int));
            assert(rest[0] == '{' && rest[1] == tag && rest[2] == '}');
            let ghost tail = substitute(t.subrange(i + 3, n as int), zs, xs, ys);
            let ghost value = placeholder_value(tag, zs, xs, ys);
            assert(substitute(rest, zs, xs, ys) == value + tail);
            let ghost before = out@;
            push_placeholder(&mut out, tag, index);
            assert(out@ + tail =~= before + substitute(rest, zs, xs, ys));
            i = i + 3;
        } else {
            assert(rest[0] == c);
            assert(!any_placeholder_at(rest, 0));
            assert(rest.subrange(1, rest.len() as int) =~= t.subrange(i + 1, n as int));
            let ghost before = out@;
            out.append(template.substring_char(i, i + 1));
            assert(out@ + substitute(t.subrange(i + 1, n as int), zs, xs, ys) =~= before
                + substitute(rest, zs, xs, ys));
            i = i + 1;
        }
    }
    assert(t.subrange(n as int, n as int) =~= Seq::<char>::empty());
    assert(out@ =~= substitute(t, zs, xs, ys));
    out
}

/// The parameter pairs as sequences of characters.
pub open spec fn pairs_view(v: Seq<(String, String)>) -> Seq<(Seq<char>, Seq<char>)> {
    v.map_values(|p: (String, String)| (p.0@, p.1@))
}

/// One `key=value` pair of a query, both sides percent-encoded.
pub open spec fn query_pair(p: (Seq<char>, Seq<char>)) -> Seq<char> {
    url_component(p.0) + seq!['='] + url_component(p.1)
}

/// The pairs, in order, each as `key=value`, joined by `&`.
pub open spec fn query_of(ps: Seq<(Seq<char>, Seq<char>)>) -> Seq<char>
    decreases ps.len(),
{
    if ps.len() == 0 {
        Seq::empty()
    } else if ps.len() == 1 {
        query_pair(ps[0])
    } else {
        query_of(ps.drop_last()) + seq!['&'] + query_pair(ps.last())
    }
}

/// The URL of a tile: the template with its placeholders filled and, when
/// there are parameters, `?` and the query built from them.
pub open spec fn tile_url(
    template: Seq<char>,
    params: Seq<(Seq<char>, Seq<char>)>,
    index: TileIndex,
) -> Seq<char> {
    if params.len() == 0 {
        substitute_index(template, index)
    } else {
        substitute_index(template, index) + seq!['?'] + query_of(params)
    }
}

/// Relies on urlencoding::encode: each byte of the string's UTF-8 form that
/// is not an ASCII letter, digit or one of `-._~` becomes `%` followed by two
/// upper-case hex digits; the other bytes stay as they are.
#[verifier::external_body]
fn url_encode(s: &str) -> (r: String)
    ensures
        r@ == url_component(s@),
{
    urlencoding::encode(s).into_owned()
}

/// The query string of the parameters, in the order given.
pub fn build_query(params: &Vec<(String, String)>) -> (r: String)
    ensures
        r@ == query_of(pairs_view(params@)),
{
    let mut out = String::new();
    let mut i: usize = 0;
    let amp = "&";
    let eq = "=";
    proof {
        reveal_strlit("&");
        reveal_strlit("=");
    }
    assert(pairs_view(params@.subrange(0, 0)) =~= Seq::<(Seq<char>, Seq<char>)>::empty());
    while i < params.len()
        invariant
            i <= params.len(),
            amp@ == seq!['&'],
            eq@ == seq!['='],
            out@ == query_of(pairs_view(params@.subrange(0, i as int))),
        decreases params.len() - i,
    {
        let ghost prev = pairs_view(params@.subrange(0, i as int));
        let ghost next = pairs_view(params@.subrange(0, i + 1));
        assert(next.drop_last() =~= prev);
        assert(next.last() == (params@[i as int].0@, params@[i as int].1@));
        if i > 0 {
            out.append(amp);
        }
        let k = url_encode(params[i].0.as_str());
        let v = url_encode(params[i].1.as_str());
        out.append(k.as_str());
        out.append(eq);
        out.append(v.as_str());
        assert(out@ =~= query_of(next));
        i = i + 1;
    }
    assert(params@.subrange(0, params.len() as int) =~= params@);
    out
}

/// The URL of the tile at `index`: the template with `{z}`, `{x}`, `{y}`
/// filled in, followed by `?` and the query when `params` is not empty.
pub fn build_url(template: &str, params: &Vec<(String, String)>, index: &TileIndex) -> (r: String)
    ensures
        r@ == tile_url(template@, pairs_view(params@), *index),
{
    let mut url = substitute_placeholders(template, index);
    if params.len() > 0 {
        let q = "?";
        proof {
            reveal_strlit("?");
        }
        url.append(q);
        let query = build_query(params);
        url.append(query.as_str());
    }
    url
}

proof fn lemma_hex_round_trip(d: int)
    requires
        0 <= d < 16,
    ensures
        hex_value(hex_digit(d)) == d,
{
}

/// Percent-decoding undoes percent-encoding, for every byte sequence.
pub proof fn lemma_percent_round_trip(bs: Seq<u8>)
    ensures
        percent_decode(percent_encode(bs)) == bs,
    decreases bs.len(),
{
    if bs.len() > 0 {
        let b = bs[0];
        let head = percent_encode_byte(b);
        let tail = percent_encode(bs.drop_first());
        let e = head + tail;
        lemma_percent_round_trip(bs.drop_first());
        assert(percent_encode(bs) == e);
        if is_unreserved(b) {
            assert(e[0] == b as char);
            assert(e.drop_first() =~= tail);
        } else {
            lemma_hex_round_trip(b as int / 16);
            lemma_hex_round_trip(b as int % 16);
            assert(e.subrange(3, e.len() as int) =~= tail);
        }
        assert(bs =~= seq![b] + bs.drop_first());
    }
}

/// Every query component decodes back to the string it was made from:
/// percent-decoding it and reading the bytes as UTF-8 gives that string.
pub proof fn lemma_url_component_round_trip(s: Seq<char>)
    ensures
        decode_utf8(percent_decode(url_component(s))) == s,
{
    lemma_percent_round_trip(encode_utf8(s));
    encode_utf8_decode_utf8(s);
}

/// A character that can take no part in a placeholder: neither a brace nor
/// one of the placeholder letters.
pub open spec fn is_plain(c: char) -> bool {
    c != '{' && c != '}' && c != 'z' && c != 'x' && c != 'y'
}

/// A non-empty sequence of plain characters.
pub open spec fn is_plain_value(s: Seq<char>) -> bool {
    s.len() > 0 && forall|i: int| 0 <= i < s.len() ==> is_plain(#[trigger] s[i])
}

proof fn lemma_decimal_digits_plain(n: nat)
    ensures
        is_plain_value(decimal_digits(n)),
    decreases n,
{
    if n >= 10 {
        lemma_decimal_digits_plain(n / 10);
    }
}

proof fn lemma_decimal_plain(n: int)
    ensures
        is_plain_value(decimal(n)),
{
    if n < 0 {
        lemma_decimal_digits_plain((-n) as nat);
        let d = decimal_digits((-n) as nat);
        assert forall|i: int| 0 <= i < decimal(n).len() implies is_plain(#[trigger] decimal(n)[i]) by {
            if i > 0 {
                assert(decimal(n)[i] == d[i - 1]);
            }
        }
    } else {
        lemma_decimal_digits_plain(n as nat);
    }
}

/// The first character of a substitution is plain or is the first
/// character of the template copied through.
proof fn lemma_substitute_first(u: Seq<char>, z: Seq<char>, x: Seq<char>, y: Seq<char>)
    requires
        u.len() > 0,
        is_plain_value(z),
        is_plain_value(x),
        is_plain_value(y),
    ensures
        substitute(u, z, x, y).len() > 0,
        is_plain(substitute(u, z, x, y)[0]) || (!any_placeholder_at(u, 0) && substitute(u, z, x, y)
            == seq![u[0]] + substitute(u.subrange(1, u.len() as int), z, x, y)),
{
    let r = substitute(u, z, x, y);
    let rest = substitute(u.subrange(3, u.len() as int), z, x, y);
    if placeholder_at(u, 0, 'z') {
        assert(r[0] == z[0]);
    } else if placeholder_at(u, 0, 'x') {
        assert(r[0] == x[0]);
    } else if placeholder_at(u, 0, 'y') {
        assert(r[0] == y[0]);
    }
}

proof fn lemma_substitute_no_placeholder(t: Seq<char>, z: Seq<char>, x: Seq<char>, y: Seq<char>)
    requires
        is_plain_value(z),
        is_plain_value(x),
        is_plain_value(y),
    ensures
        forall|i: int| !any_placeholder_at(#[trigger] substitute(t, z, x, y), i),
    decreases t.len(),
{
    if t.len() > 0 {
        let out = substitute(t, z, x, y);
        if any_placeholder_at(t, 0) {
            let tail = t.subrange(3, t.len() as int);
            let v = placeholder_value(t[1], z, x, y);
            lemma_substitute_no_placeholder(tail, z, x, y);
            let ro = substitute(tail, z, x, y);
            assert(out == v + ro);
            assert forall|i: int| !any_placeholder_at(out, i) by {
                if any_placeholder_at(out, i) {
                    if i < v.len() {
                        assert(out[i] == v[i]);
                    } else {
                        assert(out[i] == ro[i - v.len()]);
                        assert(out[i + 1] == ro[i - v.len() + 1]);
                        assert(out[i + 2] == ro[i - v.len() + 2]);
                        assert(any_placeholder_at(ro, i - v.len()));
                    }
                }
            }
        } else {
            let tail = t.subrange(1, t.len() as int);
            lemma_substitute_no_placeholder(tail, z, x, y);
            let ro = substitute(tail, z, x, y);
            assert(out == seq![t[0]] + ro);
            assert forall|i: int| !any_placeholder_at(out, i) by {
                if any_placeholder_at(out, i) {
                    if i == 0 {
                        let c = out[1];
                        assert(tail.len() > 0);
                        lemma_substitute_first(tail, z, x, y);
                        assert(ro[0] == c);
                        let tail2 = tail.subrange(1, tail.len() as int);
                        assert(tail2.len() > 0);
                        lemma_substitute_first(tail2, z, x, y);
                        assert(ro[1] == substitute(tail2, z, x, y)[0]);
                        assert(tail[0] == c);
                        assert(tail2[0] == '}');
                        assert(placeholder_at(t, 0, c));
                    } else {
                        assert(out[i] == ro[i - 1]);
                        assert(out[i + 1] == ro[i]);
                        assert(out[i + 2] == ro[i + 1]);
                        assert(any_placeholder_at(ro, i - 1));
                    }
                }
            }
        }
    }
}

/// Filling a template for any tile leaves no `{z}`, `{x}` or `{y}` in the
/// result; each placeholder of the template is replaced, left to right, by
/// the decimal zoom, column or row.
pub proof fn lemma_substitution_complete(t: Seq<char>, index: TileIndex)
    ensures
        forall|i: int| !any_placeholder_at(#[trigger] substitute_index(t, index), i),
{
    lemma_decimal_plain(index.z as int);
    lemma_decimal_plain(index.x as int);
    lemma_decimal_plain(index.y as int);
    lemma_substitute_no_placeholder(
        t,
        decimal(index.z as int),
        decimal(index.x as int),
        decimal(index.y as int),
    );
}

/// A character that separates the parts of a query: `&`, `=` or `?`.
pub open spec fn is_query_separator(c: char) -> bool {
    c == '&' || c == '=' || c == '?'
}

proof fn lemma_percent_encode_no_separator(bs: Seq<u8>)
    ensures
        forall|i: int|
            0 <= i < percent_encode(bs).len() ==> !is_query_separator(#[trigger] percent_encode(bs)[i]),
    decreases bs.len(),
{
    if bs.len() > 0 {
        lemma_percent_encode_no_separator(bs.drop_first());
        let head = percent_encode_byte(bs[0]);
        let tail = percent_encode(bs.drop_first());
        assert(percent_encode(bs) == head + tail);
        assert forall|i: int| 0 <= i < head.len() implies !is_query_separator(#[trigger] head[i]) by {
            if is_unreserved(bs[0]) {
                assert(head[i] == bs[0] as char);
            }
        }
        assert forall|i: int| 0 <= i < percent_encode(bs).len() implies !is_query_separator(
            #[trigger] percent_encode(bs)[i],
        ) by {
            if i >= head.len() {
                assert(percent_encode(bs)[i] == tail[i - head.len()]);
            } else {
                assert(percent_encode(bs)[i] == head[i]);
            }
        }
    }
}

/// An encoded key or value never holds `&`, `=` or `?`, so the query splits
/// back into its pairs, in order, at those characters alone.
pub proof fn lemma_url_component_has_no_separator(s: Seq<char>)
    ensures
        forall|i: int|
            0 <= i < url_component(s).len() ==> !is_query_separator(#[trigger] url_component(s)[i]),
{
    lemma_percent_encode_no_separator(encode_utf8(s));
}

/// The parts of `s` between occurrences of `sep`, in order (one empty part
/// for an empty `s`).
pub open spec fn split_at_char(s: Seq<char>, sep: char) -> Seq<Seq<char>>
    decreases s.len(),
{
    if s.len() == 0 {
        seq![Seq::empty()]
    } else {
        let rest = split_at_char(s.drop_last(), sep);
        if s.last() == sep {
            rest.push(Seq::empty())
        } else {
            rest.update(rest.len() - 1, rest.last().push(s.last()))
        }
    }
}

/// A component of a query read back: percent-decoded, then read as UTF-8.
pub open spec fn decode_component(c: Seq<char>) -> Seq<char> {
    decode_utf8(percent_decode(c))
}

/// The pairs that a query string holds: its `&`-separated parts, each split
/// at `=` into a key and a value, both decoded.
pub open spec fn decode_query(q: Seq<char>) -> Seq<(Seq<char>, Seq<char>)> {
    split_at_char(q, '&').map_values(
        |part: Seq<char>|
            (
                decode_component(split_at_char(part, '=')[0]),
                decode_component(split_at_char(part, '=')[1]),
            ),
    )
}

proof fn lemma_split_len(s: Seq<char>, sep: char)
    ensures
        split_at_char(s, sep).len() >= 1,
    decreases s.len(),
{
    if s.len() > 0 {
        lemma_split_len(s.drop_last(), sep);
    }
}

/// Splitting `a`, the separator and a `b` free of it gives the parts of `a`
/// followed by `b`.
proof fn lemma_split_after_sep(a: Seq<char>, sep: char, b: Seq<char>)
    requires
        forall|i: int| 0 <= i < b.len() ==> b[i] != sep,
    ensures
        split_at_char(a + seq![sep] + b, sep) == split_at_char(a, sep).push(b),
    decreases b.len(),
{
    if b.len() == 0 {
        assert(b =~= Seq::<char>::empty());
        assert((a + seq![sep] + b).drop_last() =~= a);
        assert(a + seq![sep] + b =~= a.push(sep));
    } else {
        let b0 = b.drop_last();
        lemma_split_after_sep(a, sep, b0);
        let s = a + seq![sep] + b;
        assert(s.drop_last() =~= a + seq![sep] + b0);
        assert(s.last() == b.last());
        assert(b.last() != sep);
        lemma_split_len(a, sep);
        assert(split_at_char(s, sep) =~= split_at_char(a, sep).push(b0).update(
            split_at_char(a, sep).len() as int,
            b0.push(b.last()),
        ));
        assert(b0.push(b.last()) =~= b);
        assert(split_at_char(a, sep).push(b0).update(split_at_char(a, sep).len() as int, b)
            =~= split_at_char(a, sep).push(b));
    }
}

/// A `b` free of `sep` is one part.
proof fn lemma_split_single(b: Seq<char>, sep: char)
    requires
        forall|i: int| 0 <= i < b.len() ==> b[i] != sep,
    ensures
        split_at_char(b, sep) == seq![b],
    decreases b.len(),
{
    if b.len() > 0 {
        lemma_split_single(b.drop_last(), sep);
        assert(b.drop_last().push(b.last()) =~= b);
        assert(b.last() != sep);
        assert(seq![b.drop_last()].update(0, b.drop_last().push(b.last())) =~= seq![b]);
    } else {
        assert(b =~= Seq::<char>::empty());
    }
}

proof fn lemma_pair_split(p: (Seq<char>, Seq<char>))
    ensures
        split_at_char(query_pair(p), '=') == seq![url_component(p.0), url_component(p.1)],
        forall|i: int|
            0 <= i < query_pair(p).len() ==> #[trigger] query_pair(p)[i] != '&',
{
    lemma_url_component_has_no_separator(p.0);
    lemma_url_component_has_no_separator(p.1);
    let k = url_component(p.0);
    let v = url_component(p.1);
    assert forall|i: int| 0 <= i < v.len() implies v[i] != '=' by {
        assert(!is_query_separator(v[i]));
    }
    assert forall|i: int| 0 <= i < k.len() implies k[i] != '=' by {
        assert(!is_query_separator(k[i]));
    }
    lemma_split_single(k, '=');
    lemma_split_after_sep(k, '=', v);
    assert(seq![k].push(v) =~= seq![k, v]);
    assert forall|i: int| 0 <= i < query_pair(p).len() implies #[trigger] query_pair(p)[i] != '&' by {
        if i < k.len() {
            assert(query_pair(p)[i] == k[i]);
            assert(!is_query_separator(k[i]));
        } else if i > k.len() {
            assert(query_pair(p)[i] == v[i - k.len() - 1]);
            assert(!is_query_separator(v[i - k.len() - 1]));
        }
    }
}

proof fn lemma_query_split(ps: Seq<(Seq<char>, Seq<char>)>)
    requires
        ps.len() > 0,
    ensures
        split_at_char(query_of(ps), '&') == ps.map_values(
            |p: (Seq<char>, Seq<char>)| query_pair(p),
        ),
    decreases ps.len(),
{
    lemma_pair_split(ps.last());
    if ps.len() == 1 {
        lemma_split_single(query_pair(ps[0]), '&');
        assert(ps.map_values(|p: (Seq<char>, Seq<char>)| query_pair(p)) =~= seq![query_pair(ps[0])]);
    } else {
        lemma_query_split(ps.drop_last());
        lemma_split_after_sep(query_of(ps.drop_last()), '&', query_pair(ps.last()));
        assert(ps.map_values(|p: (Seq<char>, Seq<char>)| query_pair(p)) =~= ps.drop_last().map_values(
            |p: (Seq<char>, Seq<char>)| query_pair(p),
        ).push(query_pair(ps.last())));
    }
}

/// A non-empty parameter list is read back from its query exactly: the
/// pairs come out in the order they went in, each key and value decoded to
/// the very string it was given as.
pub proof fn lemma_query_round_trip(ps: Seq<(Seq<char>, Seq<char>)>)
    requires
        ps.len() > 0,
    ensures
        decode_query(query_of(ps)) == ps,
{
    lemma_query_split(ps);
    let parts = split_at_char(query_of(ps), '&');
    assert forall|i: int| 0 <= i < ps.len() implies #[trigger] decode_query(query_of(ps))[i] == ps[i] by {
        assert(parts[i] == query_pair(ps[i]));
        lemma_pair_split(ps[i]);
        lemma_url_component_round_trip(ps[i].0);
        lemma_url_component_round_trip(ps[i].1);
    }
    assert(decode_query(query_of(ps)) =~= ps);
}

} // verus!
