//! What a HEAD response tells about a file: its size, range support and name.
use vstd::prelude::*;
use crate::text::{
    chars_of, is_prefix_of, is_white_space, opt_text, str_starts_with, trim_char, trim_end_char, trim_end_ws,
    trim_matches_char, trim_start_char, trim_start_ws, trim_white_space, trim_ws,
};

verus! {

/// The file facts read from a HEAD response.
#[derive(Debug, Clone)]
pub struct HeadInfo {
    pub content_length: u64,
    pub supports_range: bool,
    pub filename: Option<String>,
}

/// The pieces of `s` between the separators `sep`, in order; one piece when
/// `s` holds no separator, and empty pieces where separators are adjacent.
pub open spec fn split_on(s: Seq<char>, sep: char) -> Seq<Seq<char>>
    decreases s.len(),
{
    if s.len() == 0 {
        seq![Seq::<char>::empty()]
    } else {
        let rest = split_on(s.drop_last(), sep);
        if s.last() == sep {
            rest.push(Seq::<char>::empty())
        } else {
            rest.update(rest.len() - 1, rest.last().push(s.last()))
        }
    }
}

/// The text after the last `/` of a path (all of it when it has none).
pub open spec fn last_segment(path: Seq<char>) -> Seq<char>
    decreases path.len(),
{
    if path.len() == 0 {
        path
    } else if path.last() == '/' {
        Seq::<char>::empty()
    } else {
        last_segment(path.drop_last()).push(path.last())
    }
}

/// The file name that one trimmed `Content-Disposition` parameter gives:
/// after `filename=`, without surrounding double then single quotes; or after
/// `filename*=UTF-8''`, without surrounding double quotes; never an empty one.
pub open spec fn name_in_part(t: Seq<char>) -> Option<Seq<char>> {
    let plain = trim_char(trim_char(t.skip(9), '"'), '\'');
    let extended = trim_char(t.skip(17), '"');
    if is_prefix_of("filename="@, t) && plain.len() > 0 {
        Some(plain)
    } else if is_prefix_of("filename*=UTF-8''"@, t) && extended.len() > 0 {
        Some(extended)
    } else {
        None
    }
}

/// The first parameter, in order, that gives a file name.
pub open spec fn first_name(parts: Seq<Seq<char>>) -> Option<Seq<char>>
    decreases parts.len(),
{
    if parts.len() == 0 {
        None
    } else {
        match name_in_part(trim_ws(parts[0])) {
            Some(n) => Some(n),
            None => first_name(parts.drop_first()),
        }
    }
}

/// The file name of a response: from its `Content-Disposition` header, whose
/// `;`-separated parameters are tried in order, else the last segment of the
/// URL path when that is not empty.
pub open spec fn extracted_filename(content_disposition: Option<Seq<char>>, url_path: Seq<char>) -> Option<Seq<char>> {
    let from_path = if last_segment(url_path).len() > 0 {
        Some(last_segment(url_path))
    } else {
        None
    };
    match content_disposition {
        Some(cd) => match first_name(split_on(cd, ';')) {
            Some(n) => Some(n),
            None => from_path,
        },
        None => from_path,
    }
}

/// The value of a string of decimal digits.
pub open spec fn decimal_value(d: Seq<char>) -> int
    decreases d.len(),
{
    if d.len() == 0 {
        0
    } else {
        decimal_value(d.drop_last()) * 10 + (d.last() as int - '0' as int)
    }
}

/// What `u64`'s `FromStr` accepts: an optional `+`, then one or more ASCII
/// digits whose value fits in a `u64`.
pub open spec fn parse_u64_spec(s: Seq<char>) -> Option<u64> {
    let d = if s.len() > 0 && s[0] == '+' { s.drop_first() } else { s };
    if d.len() > 0 && (forall|i: int| 0 <= i < d.len() ==> '0' <= #[trigger] d[i] <= '9')
        && decimal_value(d) <= u64::MAX {
        Some(decimal_value(d) as u64)
    } else {
        None
    }
}

/// Calls `str::parse::<u64>`, which by its documentation accepts an optional
/// `+` and then decimal digits, and fails on overflow.
#[verifier::external_body]
pub(crate) fn parse_u64(s: &str) -> (r: Option<u64>)
    ensures
        r == parse_u64_spec(s@),
{
    s.parse::<u64>().ok()
}

/// The file size a `Content-Length` value gives: its number, or 0 when it is
/// missing or not a number.
pub open spec fn content_length_of(value: Option<Seq<char>>) -> u64 {
    match value {
        Some(v) => match parse_u64_spec(v) {
            Some(n) => n,
            None => 0,
        },
        None => 0,
    }
}

/// The bytes of `bytes`, the only `Accept-Ranges` value taken as range support.
pub open spec fn bytes_token() -> Seq<u8> {
    seq![98u8, 121u8, 116u8, 101u8, 115u8]
}

proof fn lemma_take_step(s: Seq<char>, i: int)
    requires
        0 <= i < s.len(),
    ensures
        s.take(i + 1).drop_last() == s.take(i),
        s.take(i + 1).last() == s[i],
{
    assert(s.take(i + 1).drop_last() =~= s.take(i));
}

proof fn lemma_first_name_append(a: Seq<Seq<char>>, b: Seq<Seq<char>>)
    requires
        first_name(a) is None,
    ensures
        first_name(a + b) == first_name(b),
    decreases a.len(),
{
    if a.len() > 0 {
        assert((a + b).drop_first() =~= a.drop_first() + b);
        lemma_first_name_append(a.drop_first(), b);
    } else {
        assert(a + b =~= b);
    }
}

proof fn lemma_first_name_single(p: Seq<char>)
    ensures
        first_name(seq![p]) == name_in_part(trim_ws(p)),
{
    assert(seq![p].drop_first() =~= Seq::<Seq<char>>::empty());
    assert(seq![p][0] == p);
    assert(first_name(Seq::<Seq<char>>::empty()) is None);
}

/// The file name that one `Content-Disposition` parameter gives, if any.
fn name_from_part(part: &str) -> (r: Option<String>)
    ensures
        match r {
            Some(n) => name_in_part(trim_ws(part@)) == Some(n@),
            None => name_in_part(trim_ws(part@)) is None,
        },
{
    let t = trim_white_space(part);
    let n = t.unicode_len();
    proof {
        reveal_strlit("filename=");
        reveal_strlit("filename*=UTF-8''");
    }
    if str_starts_with(t, "filename=") {
        let name = trim_matches_char(trim_matches_char(t.substring_char(9, n), '"'), '\'');
        proof {
            assert(t@.subrange(9, n as int) =~= t@.skip(9));
        }
        if name.unicode_len() > 0 {
            return Some(name.to_owned());
        }
    }
    if str_starts_with(t, "filename*=UTF-8''") {
        let name = trim_matches_char(t.substring_char(17, n), '"');
        proof {
            assert(t@.subrange(17, n as int) =~= t@.skip(17));
        }
        if name.unicode_len() > 0 {
            return Some(name.to_owned());
        }
    }
    None
}

/// The last segment of a URL path, when not empty.
fn name_from_path(url_path: &str) -> (r: Option<String>)
    ensures
        match r {
            Some(n) => n@ == last_segment(url_path@) && n@.len() > 0,
            None => last_segment(url_path@).len() == 0,
        },
{
    let v = chars_of(url_path);
    let mut seg_start: usize = 0;
    let mut i: usize = 0;
    while i < v.len()
        invariant
            v@ == url_path@,
            seg_start <= i <= v@.len(),
            last_segment(url_path@.take(i as int)) == url_path@.take(i as int).skip(seg_start as int),
        decreases v@.len() - i,
    {
        proof {
            lemma_take_step(url_path@, i as int);
        }
        if v[i] == '/' {
            seg_start = i + 1;
            proof {
                assert(url_path@.take(i + 1).skip(i + 1) =~= Seq::<char>::empty());
            }
        } else {
            proof {
                assert(url_path@.take(i + 1).skip(seg_start as int) =~= url_path@.take(i as int).skip(
                    seg_start as int,
                ).push(v@[i as int]));
            }
        }
        i += 1;
    }
    proof {
        assert(url_path@.take(i as int) =~= url_path@);
        assert(url_path@.skip(seg_start as int) =~= url_path@.subrange(seg_start as int, i as int));
    }
    if seg_start < v.len() {
        Some(url_path.substring_char(seg_start, v.len()).to_owned())
    } else {
        None
    }
}

/// The file name of a response: taken from the `Content-Disposition` value
/// when it gives one, else from the last segment of the URL path.
pub fn extract_filename(content_disposition: Option<&str>, url_path: &str) -> (r: Option<String>)
    ensures
        match r {
            Some(n) => extracted_filename(opt_text(content_disposition), url_path@) == Some(n@),
            None => extracted_filename(opt_text(content_disposition), url_path@) is None,
        },
{
    if let Some(cd) = content_disposition {
        let v = chars_of(cd);
        let mut start: usize = 0;
        let mut i: usize = 0;
        let ghost mut done: Seq<Seq<char>> = Seq::empty();
        proof {
            assert(cd@.take(0) =~= Seq::<char>::empty());
            assert(cd@.take(0).skip(0) =~= Seq::<char>::empty());
            assert(split_on(cd@.take(0), ';') =~= done.push(cd@.take(0).skip(0)));
        }
        while i < v.len()
            invariant
                content_disposition == Some(cd),
                v@ == cd@,
                start <= i <= v@.len(),
                split_on(cd@.take(i as int), ';') == done.push(cd@.take(i as int).skip(start as int)),
                first_name(done) is None,
            decreases v@.len() - i,
        {
            proof {
                lemma_take_step(cd@, i as int);
            }
            if v[i] == ';' {
                let part = cd.substring_char(start, i);
                proof {
                    assert(part@ =~= cd@.take(i as int).skip(start as int));
                }
                match name_from_part(part) {
                    Some(n) => {
                        proof {
                            lemma_first_name_single(part@);
                            lemma_first_name_append(done, seq![part@]);
                            assert(done + seq![part@] =~= done.push(part@));
                            let whole = split_on(cd@, ';');
                            lemma_split_prefix(cd@, i + 1, ';');
                            assert(split_on(cd@.take(i + 1), ';') == split_on(cd@.take(i as int), ';').push(
                                Seq::<char>::empty(),
                            ));
                            assert(split_on(cd@.take(i + 1), ';').drop_last() =~= done.push(part@));
                            lemma_first_name_prefix(done.push(part@), whole);
                        }
                        return Some(n);
                    },
                    None => {},
                }
                proof {
                    lemma_first_name_single(part@);
                    lemma_first_name_append(done, seq![part@]);
                    assert(done + seq![part@] =~= done.push(part@));
                    done = done.push(part@);
                    assert(cd@.take(i + 1).skip(i + 1) =~= Seq::<char>::empty());
                }
                start = i + 1;
            } else {
                proof {
                    assert(cd@.take(i + 1).skip(start as int) =~= cd@.take(i as int).skip(
                        start as int,
                    ).push(v@[i as int]));
                }
            }
            i += 1;
        }
        let part = cd.substring_char(start, v.len());
        proof {
            assert(cd@.take(i as int) =~= cd@);
            assert(part@ =~= cd@.take(i as int).skip(start as int));
            lemma_first_name_single(part@);
            lemma_first_name_append(done, seq![part@]);
            assert(done + seq![part@] =~= done.push(part@));
        }
        if let Some(n) = name_from_part(part) {
            return Some(n);
        }
    }
    name_from_path(url_path)
}

/// A text without the separator is one piece.
proof fn lemma_split_no_sep(s: Seq<char>, sep: char)
    requires
        !s.contains(sep),
    ensures
        split_on(s, sep) == seq![s],
    decreases s.len(),
{
    if s.len() > 0 {
        assert(!s.drop_last().contains(sep)) by {
            if s.drop_last().contains(sep) {
                let k = choose|k: int| 0 <= k < s.drop_last().len() && s.drop_last()[k] == sep;
                assert(s[k] == sep);
            }
        }
        lemma_split_no_sep(s.drop_last(), sep);
        assert(s.last() != sep) by {
            assert(s[s.len() - 1] == s.last());
        }
        assert(s.drop_last().push(s.last()) =~= s);
        assert(split_on(s, sep) =~= seq![s]);
    } else {
        assert(s =~= Seq::<char>::empty());
    }
}

/// Text without the separator appended to `x` extends the last piece of `x`.
proof fn lemma_split_append(x: Seq<char>, b: Seq<char>, sep: char)
    requires
        !b.contains(sep),
    ensures
        split_on(x + b, sep) == split_on(x, sep).update(
            split_on(x, sep).len() - 1,
            split_on(x, sep).last() + b,
        ),
    decreases b.len(),
{
    lemma_split_len(x, sep);
    if b.len() == 0 {
        assert(x + b =~= x);
        assert(split_on(x, sep).last() + b =~= split_on(x, sep).last());
        assert(split_on(x, sep).update(split_on(x, sep).len() - 1, split_on(x, sep).last())
            =~= split_on(x, sep));
    } else {
        let b0 = b.drop_last();
        assert(!b0.contains(sep)) by {
            if b0.contains(sep) {
                let k = choose|k: int| 0 <= k < b0.len() && b0[k] == sep;
                assert(b[k] == sep);
            }
        }
        assert(b.last() != sep) by {
            assert(b[b.len() - 1] == b.last());
        }
        lemma_split_append(x, b0, sep);
        assert((x + b).drop_last() =~= x + b0);
        assert((x + b).last() == b.last());
        let r = split_on(x, sep);
        assert(split_on(x + b, sep) =~= r.update(r.len() - 1, r.last() + b)) by {
            assert(r.last() + b0 + seq![b.last()] =~= r.last() + b);
            assert((r.last() + b0).push(b.last()) =~= r.last() + b);
        }
    }
}

/// A separator appended to `x` starts a new, empty piece.
proof fn lemma_split_sep(x: Seq<char>, sep: char)
    ensures
        split_on(x.push(sep), sep) == split_on(x, sep).push(Seq::<char>::empty()),
{
    assert(x.push(sep).drop_last() =~= x);
}

/// White space trimming leaves a text alone whose ends are not white space.
proof fn lemma_trim_ws_id(s: Seq<char>)
    requires
        s.len() > 0,
        !is_white_space(s[0]),
        !is_white_space(s.last()),
    ensures
        trim_ws(s) == s,
{
    assert(trim_start_ws(s) == s);
    assert(trim_end_ws(s) == s);
}

/// Trimming `c` leaves a text alone whose ends are not `c`.
proof fn lemma_trim_char_id(s: Seq<char>, c: char)
    requires
        s.len() > 0,
        s[0] != c,
        s.last() != c,
    ensures
        trim_char(s, c) == s,
{
    assert(trim_start_char(s, c) == s);
    assert(trim_end_char(s, c) == s);
}

/// Trimming `c` from `c n c` gives `n` when the ends of `n` are not `c`.
proof fn lemma_trim_char_quoted(n: Seq<char>, c: char)
    requires
        n.len() > 0,
        n[0] != c,
        n.last() != c,
    ensures
        trim_char(seq![c] + n + seq![c], c) == n,
{
    let q = seq![c] + n + seq![c];
    assert(q[0] == c);
    assert(q.drop_first() =~= n.push(c));
    assert(n.push(c)[0] == n[0]);
    assert(trim_start_char(n.push(c), c) == n.push(c));
    assert(trim_start_char(q, c) == n.push(c));
    assert(n.push(c).last() == c);
    assert(n.push(c).drop_last() =~= n);
    assert(trim_end_char(n, c) == n);
    assert(trim_end_char(n.push(c), c) == n);
}

/// A file name that needs no trimming: not empty, without `;`, and not
/// starting or ending with white space or a quote.
pub open spec fn plain_name(n: Seq<char>) -> bool {
    &&& n.len() > 0
    &&& !n.contains(';')
    &&& !is_white_space(n[0]) && n[0] != '"' && n[0] != '\''
    &&& !is_white_space(n.last()) && n.last() != '"' && n.last() != '\''
}

/// The `Content-Disposition` header takes precedence over the URL: when one
/// of its parameters gives a file name, that name is the result whatever the
/// URL path; when none does, the result is that of the path alone.
pub proof fn lemma_disposition_before_path(cd: Seq<char>, path: Seq<char>)
    ensures
        first_name(split_on(cd, ';')) is Some ==> extracted_filename(Some(cd), path) == first_name(split_on(cd, ';')),
        first_name(split_on(cd, ';')) is None ==> extracted_filename(Some(cd), path) == extracted_filename(None, path),
        extracted_filename(None, path) is Some ==> extracted_filename(None, path) == Some(last_segment(path))
            && last_segment(path).len() > 0,
{
}

/// The usual headers give their file name, whatever the URL path:
/// `filename=NAME` and `attachment; filename="NAME"` both name `NAME`.
pub proof fn lemma_disposition_names_file(n: Seq<char>, path: Seq<char>)
    requires
        plain_name(n),
    ensures
        extracted_filename(Some("filename="@ + n), path) == Some(n),
        extracted_filename(Some("attachment; filename=\""@ + n + "\""@), path) == Some(n),
{
    reveal_strlit("filename=");
    reveal_strlit("filename*=UTF-8''");
    reveal_strlit("attachment; filename=\"");
    reveal_strlit("\"");
    reveal_strlit("attachment");
    // filename=NAME
    let cd1 = "filename="@ + n;
    assert(!cd1.contains(';')) by {
        if cd1.contains(';') {
            let k = choose|k: int| 0 <= k < cd1.len() && cd1[k] == ';';
            if k >= 9 {
                assert(n[k - 9] == ';');
            }
        }
    }
    lemma_split_no_sep(cd1, ';');
    assert(cd1[0] == 'f');
    assert(cd1.last() == n.last());
    lemma_trim_ws_id(cd1);
    assert(cd1.subrange(0, 9) =~= "filename="@);
    assert(cd1.skip(9) =~= n);
    lemma_trim_char_id(n, '"');
    lemma_trim_char_id(n, '\'');
    assert(name_in_part(cd1) == Some(n));
    lemma_first_name_single(cd1);
    // attachment; filename="NAME"
    let a = "attachment"@;
    let b = " filename=\""@ + n + "\""@;
    reveal_strlit(" filename=\"");
    let cd2 = "attachment; filename=\""@ + n + "\""@;
    assert(cd2 =~= a.push(';') + b);
    assert(!b.contains(';')) by {
        if b.contains(';') {
            let k = choose|k: int| 0 <= k < b.len() && b[k] == ';';
            if 11 <= k < 11 + n.len() {
                assert(n[k - 11] == ';');
            }
        }
    }
    assert(!a.contains(';'));
    lemma_split_no_sep(a, ';');
    lemma_split_sep(a, ';');
    lemma_split_append(a.push(';'), b, ';');
    assert(Seq::<char>::empty() + b =~= b);
    assert(split_on(cd2, ';') =~= seq![a, b]);
    lemma_trim_ws_id(a);
    assert(a.subrange(0, 9)[0] != "filename="@[0]);
    assert(name_in_part(a) is None);
    let t = "filename="@ + ("\""@ + n + "\""@);
    assert(b.drop_first() =~= t);
    assert(is_white_space(b[0]));
    assert(trim_start_ws(b) == trim_start_ws(b.drop_first()));
    assert(t[0] == 'f');
    assert(t.last() == '"');
    assert(trim_start_ws(t) == t);
    assert(trim_end_ws(t) == t);
    assert(trim_ws(b) == t);
    assert(t.subrange(0, 9) =~= "filename="@);
    assert(t.skip(9) =~= seq!['"'] + n + seq!['"']);
    lemma_trim_char_quoted(n, '"');
    assert(name_in_part(t) == Some(n));
    assert(seq![a, b].drop_first() =~= seq![b]);
    lemma_first_name_single(b);
    assert(first_name(seq![a, b]) == first_name(seq![b]));
}

/// Splitting a prefix ending at a separator gives a prefix of the pieces.
proof fn lemma_split_prefix(s: Seq<char>, k: int, sep: char)
    requires
        0 < k <= s.len(),
        s[k - 1] == sep,
    ensures
        split_on(s.take(k), sep).drop_last().len() < split_on(s, sep).len(),
        split_on(s.take(k), sep).drop_last() == split_on(s, sep).take(split_on(s.take(k), sep).len() - 1),
    decreases s.len(),
{
    lemma_split_len(s.take(k), sep);
    if k == s.len() {
        assert(s.take(k) =~= s);
        let rest = split_on(s.drop_last(), sep);
        assert(split_on(s, sep) == rest.push(Seq::<char>::empty()));
        assert(split_on(s, sep).take(split_on(s, sep).len() - 1) =~= rest);
        assert(s.take(k).drop_last() =~= s.drop_last());
    } else {
        lemma_split_prefix(s.drop_last(), k, sep);
        assert(s.drop_last().take(k) =~= s.take(k));
        let rest = split_on(s.drop_last(), sep);
        let m = split_on(s.take(k), sep).len() - 1;
        lemma_split_len(s.drop_last(), sep);
        if s.last() == sep {
            assert(split_on(s, sep).take(m) =~= rest.take(m));
        } else {
            assert(split_on(s, sep).take(m) =~= rest.take(m));
        }
    }
}

proof fn lemma_split_len(s: Seq<char>, sep: char)
    ensures
        split_on(s, sep).len() >= 1,
    decreases s.len(),
{
    if s.len() > 0 {
        lemma_split_len(s.drop_last(), sep);
    }
}

/// A name found in a prefix of the pieces is the first name of all of them.
proof fn lemma_first_name_prefix(pre: Seq<Seq<char>>, all: Seq<Seq<char>>)
    requires
        pre.len() <= all.len(),
        pre == all.take(pre.len() as int),
        first_name(pre) is Some,
    ensures
        first_name(all) == first_name(pre),
    decreases pre.len(),
{
    if pre.len() > 0 {
        assert(pre[0] == all[0]);
        if name_in_part(trim_ws(pre[0])) is None {
            assert(pre.drop_first() =~= all.drop_first().take(pre.len() - 1));
            lemma_first_name_prefix(pre.drop_first(), all.drop_first());
        }
    }
}

/// The character of a decimal digit.
pub open spec fn digit_char(d: int) -> char {
    if d == 0 { '0' } else if d == 1 { '1' } else if d == 2 { '2' } else if d == 3 { '3' }
    else if d == 4 { '4' } else if d == 5 { '5' } else if d == 6 { '6' } else if d == 7 { '7' }
    else if d == 8 { '8' } else { '9' }
}

/// The decimal text of a number, without leading zeros.
pub open spec fn decimal_text(n: nat) -> Seq<char>
    decreases n,
{
    if n < 10 {
        seq![digit_char(n as int)]
    } else {
        decimal_text(n / 10).push(digit_char((n % 10) as int))
    }
}

/// The value of the `Range` request header for bytes `start` to `end`
/// (to the end of the file when `end` is `None`).
pub open spec fn range_text(start: u64, end: Option<u64>) -> Seq<char> {
    "bytes="@ + decimal_text(start as nat) + "-"@ + match end {
        Some(e) => decimal_text(e as nat),
        None => Seq::<char>::empty(),
    }
}

fn digit_str(d: u64) -> (r: &'static str)
    requires
        d < 10,
    ensures
        r@ == seq![digit_char(d as int)],
{
    proof {
        reveal_strlit("0");
        reveal_strlit("1");
        reveal_strlit("2");
        reveal_strlit("3");
        reveal_strlit("4");
        reveal_strlit("5");
        reveal_strlit("6");
        reveal_strlit("7");
        reveal_strlit("8");
        reveal_strlit("9");
    }
    let r = if d == 0 { "0" } else if d == 1 { "1" } else if d == 2 { "2" } else if d == 3 { "3" }
        else if d == 4 { "4" } else if d == 5 { "5" } else if d == 6 { "6" } else if d == 7 { "7" }
        else if d == 8 { "8" } else { "9" };
    proof {
        assert(r@ =~= seq![digit_char(d as int)]);
    }
    r
}

/// Appends the decimal text of `n`.
fn push_decimal(out: &mut String, n: u64)
    ensures
        final(out)@ == old(out)@ + decimal_text(n as nat),
    decreases n,
{
    if n >= 10 {
        push_decimal(out, n / 10);
    }
    out.append(digit_str(n % 10));
    proof {
        if n >= 10 {
            assert(old(out)@ + decimal_text(n as nat) =~= old(out)@ + decimal_text((n / 10) as nat) + seq![
                digit_char((n % 10) as int),
            ]);
        } else {
            assert(n % 10 == n);
        }
    }
}

/// The value of the `Range` header that asks for bytes `start` to `end`, or
/// from `start` to the end of the file.
pub fn range_header_value(start: u64, end: Option<u64>) -> (r: String)
    ensures
        r@ == range_text(start, end),
{
    let mut out = String::new();
    out.append("bytes=");
    push_decimal(&mut out, start);
    out.append("-");
    if let Some(e) = end {
        push_decimal(&mut out, e);
    }
    proof {
        assert(out@ =~= range_text(start, end));
    }
    out
}

/// Whether a response to a ranged GET can be streamed: status 206 (partial
/// content) or 200 (the whole file).
pub fn range_response_ok(status: u16) -> (r: bool)
    ensures
        r == (status == 206 || status == 200),
{
    status == 206 || status == 200
}

impl HeadInfo {
    /// The file facts that HEAD response headers give: the `Content-Length`
    /// number (0 when missing or invalid), whether `Accept-Ranges` is exactly
    /// `bytes`, and the file name from `Content-Disposition` or the URL path.
    pub fn from_headers(
        content_length: Option<&str>,
        accept_ranges: Option<&[u8]>,
        content_disposition: Option<&str>,
        url_path: &str,
    ) -> (r: HeadInfo)
        ensures
            r.content_length == content_length_of(opt_text(content_length)),
            r.supports_range == match accept_ranges {
                Some(b) => b@ == bytes_token(),
                None => false,
            },
            match r.filename {
                Some(n) => extracted_filename(opt_text(content_disposition), url_path@) == Some(n@),
                None => extracted_filename(opt_text(content_disposition), url_path@) is None,
            },
    {
        let length = match content_length {
            Some(v) => match parse_u64(v) {
                Some(n) => n,
                None => 0,
            },
            None => 0,
        };
        let supports_range = match accept_ranges {
            Some(b) => {
                let ok = b.len() == 5 && b[0] == 98u8 && b[1] == 121u8 && b[2] == 116u8 && b[3] == 101u8
                    && b[4] == 115u8;
                proof {
                    if ok {
                        assert(b@ =~= bytes_token());
                    }
                }
                ok
            },
            None => false,
        };
        HeadInfo {
            content_length: length,
            supports_range,
            filename: extract_filename(content_disposition, url_path),
        }
    }
}

} // verus!
