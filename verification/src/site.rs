//! Reading a business's website: pages as text, and the lines a read of them
//! suggests.
use vstd::prelude::*;
use crate::text::{chars_of, copy_str, from_chars, is_first_at, join, lower, lower_vec, occurs_at, push_str, str_views, trim, trim_str, words_from};

verus! {

/// One line of a site read, as the model returned it and after checking.
#[derive(Debug, Default)]
pub struct SiteLine {
    pub field: String,
    pub text: String,
    pub kind: String,
    pub source: String,
}

pub ghost struct SiteLineV {
    pub field: Seq<char>,
    pub text: Seq<char>,
    pub kind: Seq<char>,
    pub source: Seq<char>,
}

impl View for SiteLine {
    type V = SiteLineV;

    open spec fn view(&self) -> SiteLineV {
        SiteLineV { field: self.field@, text: self.text@, kind: self.kind@, source: self.source@ }
    }
}

pub open spec fn lines_view(v: Seq<SiteLine>) -> Seq<SiteLineV> {
    v.map_values(|l: SiteLine| l@)
}

#[derive(Debug, Default)]
pub struct SiteLink {
    pub href: String,
    pub text: String,
}

/// A page, as text.
#[derive(Debug, Default)]
pub struct SiteText {
    pub url: String,
    pub title: String,
    pub description: String,
    pub headings: Vec<String>,
    pub text: String,
    pub links: Vec<SiteLink>,
}

/// What a site read may suggest a line for.
pub open spec fn is_field(f: Seq<char>) -> bool {
    f == "what"@ || f == "serves"@ || f == "industry"@ || f == "where"@ || f == "product"@ || f
        == "service"@
}

/// Without its trailing commas.
pub open spec fn strip_commas_end(s: Seq<char>) -> Seq<char>
    decreases s.len(),
{
    if s.len() > 0 && s.last() == ',' {
        strip_commas_end(s.drop_last())
    } else {
        s
    }
}

/// Without its leading double quotes.
pub open spec fn strip_quotes_start(s: Seq<char>) -> Seq<char>
    decreases s.len(),
{
    if s.len() > 0 && s[0] == '"' {
        strip_quotes_start(s.drop_first())
    } else {
        s
    }
}

/// Without its leading and trailing double quotes.
pub open spec fn strip_quotes(s: Seq<char>) -> Seq<char>
    decreases s.len(),
{
    let t = strip_quotes_start(s);
    strip_quotes_end(t)
}

pub open spec fn strip_quotes_end(s: Seq<char>) -> Seq<char>
    decreases s.len(),
{
    if s.len() > 0 && s.last() == '"' {
        strip_quotes_end(s.drop_last())
    } else {
        s
    }
}

/// A line of a reply that can hold one suggestion: trimmed, without
/// trailing commas, and braced.
pub open spec fn candidate(raw: Seq<char>) -> Option<Seq<char>> {
    let l = strip_commas_end(trim(raw));
    if l.len() > 0 && l[0] == '{' && l.last() == '}' {
        Some(l)
    } else {
        None
    }
}

pub open spec fn candidates(ls: Seq<Seq<char>>) -> Seq<Seq<char>>
    decreases ls.len(),
{
    if ls.len() == 0 {
        seq![]
    } else {
        let rest = candidates(ls.drop_last());
        match candidate(ls.last()) {
            Some(l) => rest.push(l),
            None => rest,
        }
    }
}

/// A line as the model sent it, tidied: field and kind trimmed and
/// lowercased, text trimmed of spaces and quotes. A line for no known field,
/// or with no text, is none. A kind nobody knows is a guess, the one that
/// asks the most of the reader; a quote whose words are not on the site is
/// a suggestion, and says so.
pub open spec fn tidy(s: SiteLineV, site: Seq<char>) -> Option<SiteLineV> {
    let field = lower(trim(s.field));
    let text = trim(strip_quotes(trim(s.text)));
    let k = lower(trim(s.kind));
    let kind = if k == "quote"@ {
        "quote"@
    } else if k == "suggestion"@ {
        "suggestion"@
    } else {
        "guess"@
    };
    if !is_field(field) || text.len() == 0 {
        None
    } else {
        Some(
            SiteLineV {
                field,
                text,
                kind: if kind == "quote"@ && !contains_words_spec(site, text) {
                    "suggestion"@
                } else {
                    kind
                },
                source: trim(s.source),
            },
        )
    }
}

/// Whether a line for this field with this text, ignoring ASCII case, is
/// there already.
pub open spec fn repeats(out: Seq<SiteLineV>, t: SiteLineV) -> bool {
    exists|k: int| 0 <= k < out.len() && out[k].field == t.field && crate::text::eq_ci(out[k].text, t.text)
}

/// The lines of a reply, checked and tidied, each field and text once.
pub open spec fn site_lines(read: Seq<Option<SiteLineV>>, site: Seq<char>) -> Seq<SiteLineV>
    decreases read.len(),
{
    if read.len() == 0 {
        seq![]
    } else {
        let out = site_lines(read.drop_last(), site);
        match read.last() {
            Some(s) => match tidy(s, site) {
                Some(t) => if repeats(out, t) {
                    out
                } else {
                    out.push(t)
                },
                None => out,
            },
            None => out,
        }
    }
}

/// Too little on the page to say anything: fewer than 400 characters of
/// text, which is what a site drawn by script returns to a plain fetch.
pub fn is_thin(t: &SiteText) -> (r: bool)
    ensures
        r == (t.text@.len() < 400),
{
    chars_of(t.text.as_str()).len() < 400
}


// ---------------------------------------------------------------------------
// Entities
// ---------------------------------------------------------------------------

/// Where the first `c` at or after `i` is, or the end.
pub open spec fn index_from(s: Seq<char>, c: char, i: int) -> int
    decreases s.len() - i,
{
    if i < 0 || i >= s.len() {
        s.len() as int
    } else if s[i] == c {
        i
    } else {
        index_from(s, c, i + 1)
    }
}

proof fn lemma_index_from(s: Seq<char>, c: char, i: int, e: int)
    requires
        0 <= i <= e <= s.len(),
        forall|j: int| i <= j < e ==> s[j] != c,
        e < s.len() ==> s[e] == c,
    ensures
        index_from(s, c, i) == e,
    decreases e - i,
{
    if i < e {
        lemma_index_from(s, c, i + 1, e);
    }
}

pub(crate) fn index_from_exec(v: &Vec<char>, c: char, i: usize) -> (r: usize)
    requires
        i <= v.len(),
    ensures
        i <= r <= v.len(),
        r == index_from(v@, c, i as int) || (i == v.len() && r == v.len()),
        forall|j: int| i <= j < r ==> v@[j] != c,
        r < v.len() ==> v@[r as int] == c,
{
    let mut e = i;
    while e < v.len() && v[e] != c
        invariant
            i <= e <= v.len(),
            forall|j: int| i <= j < e ==> v@[j] != c,
        decreases v.len() - e,
    {
        e = e + 1;
    }
    proof {
        lemma_index_from(v@, c, i as int, e as int);
    }
    e
}

/// The value of a digit in a radix up to 36, if it is one.
pub open spec fn digit_value(c: char, radix: int) -> Option<int> {
    let v = if '0' <= c && c <= '9' {
        c as int - '0' as int
    } else if 'a' <= c && c <= 'z' {
        c as int - 'a' as int + 10
    } else if 'A' <= c && c <= 'Z' {
        c as int - 'A' as int + 10
    } else {
        radix
    };
    if v < radix {
        Some(v)
    } else {
        None
    }
}

pub open spec fn all_radix_digits(s: Seq<char>, radix: int) -> bool {
    forall|i: int| 0 <= i < s.len() ==> #[trigger] digit_value(s[i], radix) is Some
}

pub open spec fn radix_value(s: Seq<char>, radix: int) -> int
    decreases s.len(),
{
    if s.len() == 0 {
        0
    } else {
        radix_value(s.drop_last(), radix) * radix + digit_value(s.last(), radix)->0
    }
}

/// What `u32::from_str_radix` reads: an optional `+`, then one or more
/// digits of the radix, within the range of `u32`.
pub open spec fn parse_u32_spec(s: Seq<char>, radix: int) -> Option<int> {
    let d = if s.len() > 0 && s[0] == '+' {
        s.drop_first()
    } else {
        s
    };
    if d.len() > 0 && all_radix_digits(d, radix) && radix_value(d, radix) <= u32::MAX {
        Some(radix_value(d, radix))
    } else {
        None
    }
}

fn digit_value_exec(c: char, radix: u32) -> (r: Option<u32>)
    requires
        2 <= radix <= 36,
    ensures
        match r {
            Some(v) => digit_value(c, radix as int) == Some(v as int),
            None => digit_value(c, radix as int) is None,
        },
{
    let v: u32 = if '0' <= c && c <= '9' {
        (c as u32) - ('0' as u32)
    } else if 'a' <= c && c <= 'z' {
        (c as u32) - ('a' as u32) + 10
    } else if 'A' <= c && c <= 'Z' {
        (c as u32) - ('A' as u32) + 10
    } else {
        radix
    };
    if v < radix {
        Some(v)
    } else {
        None
    }
}

proof fn lemma_radix_value_grows(s: Seq<char>, radix: int, i: int)
    requires
        0 <= i <= s.len(),
        2 <= radix,
        all_radix_digits(s, radix),
    ensures
        radix_value(s, radix) >= radix_value(s.take(i), radix) >= 0,
    decreases s.len(),
{
    if s.len() > 0 {
        assert(digit_value(s[s.len() - 1], radix) is Some);
        assert(all_radix_digits(s.drop_last(), radix)) by {
            assert forall|k: int| 0 <= k < s.drop_last().len() implies #[trigger] digit_value(
                s.drop_last()[k],
                radix,
            ) is Some by {
                assert(s.drop_last()[k] == s[k]);
                assert(digit_value(s[k], radix) is Some);
            }
        }
        if i == s.len() {
            assert(s.take(i) =~= s);
            lemma_radix_value_grows(s.drop_last(), radix, i - 1);
            assert(s.drop_last().take(i - 1) =~= s.drop_last());
        } else {
            lemma_radix_value_grows(s.drop_last(), radix, i);
            assert(s.drop_last().take(i) =~= s.take(i));
            lemma_radix_value_grows(s.drop_last(), radix, s.len() - 1);
            assert(s.drop_last().take(s.len() - 1) =~= s.drop_last());
        }
        assert(radix_value(s.drop_last(), radix) * radix >= radix_value(s.drop_last(), radix)) by (nonlinear_arith)
            requires
                radix_value(s.drop_last(), radix) >= 0,
                radix >= 2,
        ;
    } else {
        assert(s.take(i) =~= s);
    }
}

/// `u32::from_str_radix`, for a radix from 2 to 36.
pub fn parse_u32_radix(s: &[char], radix: u32) -> (r: Option<u32>)
    requires
        2 <= radix <= 36,
    ensures
        match r {
            Some(v) => parse_u32_spec(s@, radix as int) == Some(v as int),
            None => parse_u32_spec(s@, radix as int) is None,
        },
{
    let start: usize = if s.len() > 0 && s[0] == '+' {
        1
    } else {
        0
    };
    let ghost d = if s@.len() > 0 && s@[0] == '+' {
        s@.drop_first()
    } else {
        s@
    };
    assert(d =~= s@.subrange(start as int, s.len() as int));
    if start >= s.len() {
        return None;
    }
    let mut acc: u64 = 0;
    let mut i = start;
    while i < s.len()
        invariant
            start <= i <= s.len(),
            2 <= radix <= 36,
            d == s@.subrange(start as int, s.len() as int),
            d == (if s@.len() > 0 && s@[0] == '+' {
                s@.drop_first()
            } else {
                s@
            }),
            all_radix_digits(d.take(i - start), radix as int),
            acc == radix_value(d.take(i - start), radix as int),
            acc <= u32::MAX,
        decreases s.len() - i,
    {
        let dv = match digit_value_exec(s[i], radix) {
            Some(x) => x,
            None => {
                assert(d[i - start] == s@[i as int]);
                assert(!all_radix_digits(d, radix as int));
                return None;
            },
        };
        assert(acc * (radix as u64) <= 0xffff_ffff * 36) by (nonlinear_arith)
            requires
                acc <= 0xffff_ffff,
                radix <= 36,
        ;
        let next: u64 = acc * (radix as u64) + (dv as u64);
        let ghost prev = d.take(i - start);
        i = i + 1;
        assert(d.take(i - start).drop_last() =~= prev);
        assert(d.take(i - start).last() == s@[i - 1]);
        assert(all_radix_digits(d.take(i - start), radix as int)) by {
            assert forall|k: int| 0 <= k < d.take(i - start).len() implies #[trigger] digit_value(
                d.take(i - start)[k],
                radix as int,
            ) is Some by {
                if k < i - 1 - start {
                    assert(d.take(i - start)[k] == prev[k]);
                }
            }
        }
        if next > 0xffff_ffff {
            proof {
                if all_radix_digits(d, radix as int) {
                    lemma_radix_value_grows(d, radix as int, i - start);
                }
            }
            return None;
        }
        acc = next;
    }
    assert(d.take(s.len() - start) =~= d);
    Some(acc as u32)
}

/// The character with this code point, if there is one.
pub open spec fn char_of(v: int) -> Option<char> {
    if 0 <= v <= 0x10FFFF && !(0xD800 <= v <= 0xDFFF) {
        Some(v as char)
    } else {
        None
    }
}

/// `char::from_u32`: the character with this code point, or `None` for a
/// surrogate or a value past `0x10FFFF`, as its documentation says.
#[verifier::external_body]
fn char_from_u32(v: u32) -> (r: Option<char>)
    ensures
        r == char_of(v as int),
{
    char::from_u32(v)
}

/// What an entity's name between `&` and `;` stands for, if anything.
pub open spec fn entity_char(e: Seq<char>) -> Option<char> {
    if e == "amp"@ {
        Some('&')
    } else if e == "lt"@ {
        Some('<')
    } else if e == "gt"@ {
        Some('>')
    } else if e == "quot"@ {
        Some('"')
    } else if e == "apos"@ {
        Some('\'')
    } else if e == "nbsp"@ {
        Some(' ')
    } else if e == "ndash"@ || e == "mdash"@ {
        Some('-')
    } else if e == "rsquo"@ || e == "lsquo"@ {
        Some('\'')
    } else if e == "rdquo"@ || e == "ldquo"@ {
        Some('"')
    } else if e.len() >= 2 && e[0] == '#' && (e[1] == 'x' || e[1] == 'X') {
        match parse_u32_spec(e.skip(2), 16) {
            Some(v) => char_of(v),
            None => None,
        }
    } else if e.len() >= 1 && e[0] == '#' {
        match parse_u32_spec(e.skip(1), 10) {
            Some(v) => char_of(v),
            None => None,
        }
    } else {
        None
    }
}

fn is_lit(e: &Vec<char>, lit: &str) -> (r: bool)
    ensures
        r == (e@ == lit@),
{
    let l = chars_of(lit);
    crate::text::seq_eq(e, &l)
}

fn entity_char_exec(e: &Vec<char>) -> (r: Option<char>)
    ensures
        r == entity_char(e@),
{
    if is_lit(e, "amp") {
        Some('&')
    } else if is_lit(e, "lt") {
        Some('<')
    } else if is_lit(e, "gt") {
        Some('>')
    } else if is_lit(e, "quot") {
        Some('"')
    } else if is_lit(e, "apos") {
        Some('\'')
    } else if is_lit(e, "nbsp") {
        Some(' ')
    } else if is_lit(e, "ndash") || is_lit(e, "mdash") {
        Some('-')
    } else if is_lit(e, "rsquo") || is_lit(e, "lsquo") {
        Some('\'')
    } else if is_lit(e, "rdquo") || is_lit(e, "ldquo") {
        Some('"')
    } else if e.len() >= 2 && e[0] == '#' && (e[1] == 'x' || e[1] == 'X') {
        let digits = crate::text::sub_vec(e, 2, e.len());
        assert(digits@ =~= e@.skip(2));
        match parse_u32_radix(&digits, 16) {
            Some(v) => char_from_u32(v),
            None => None,
        }
    } else if e.len() >= 1 && e[0] == '#' {
        let digits = crate::text::sub_vec(e, 1, e.len());
        assert(digits@ =~= e@.skip(1));
        match parse_u32_radix(&digits, 10) {
            Some(v) => char_from_u32(v),
            None => None,
        }
    } else {
        None
    }
}

/// HTML entities decoded: a named or numbered entity of at most nine
/// characters between `&` and `;` becomes its character; any other `&`
/// stays as it is.
pub open spec fn decode_spec(s: Seq<char>) -> Seq<char>
    decreases s.len(),
{
    let i = index_from(s, '&', 0);
    if !(0 <= i < s.len()) {
        s
    } else {
        let after = s.skip(i);
        let end = index_from(after, ';', 0);
        if 1 <= end < after.len() && end <= 10 && entity_char(after.subrange(1, end)) is Some {
            s.take(i) + seq![entity_char(after.subrange(1, end))->0] + decode_spec(after.skip(end + 1))
        } else {
            s.take(i) + seq!['&'] + decode_spec(after.skip(1))
        }
    }
}

proof fn lemma_index_from_skip(s: Seq<char>, c: char, k: int)
    requires
        0 <= k <= s.len(),
    ensures
        index_from(s, c, k) == k + index_from(s.skip(k), c, 0),
{
    let u = s.skip(k);
    let e = index_from(s, c, k);
    lemma_index_from_bounds(s, c, k);
    assert forall|j: int| 0 <= j < e - k implies u[j] != c by {
        lemma_index_from_before(s, c, k, j + k);
    }
    if e < s.len() {
        assert(u[e - k] == s[e]);
    }
    lemma_index_from(u, c, 0, e - k);
}

proof fn lemma_index_from_bounds(t: Seq<char>, c: char, i: int)
    requires
        0 <= i <= t.len(),
    ensures
        i <= index_from(t, c, i) <= t.len(),
        index_from(t, c, i) < t.len() ==> t[index_from(t, c, i)] == c,
    decreases t.len() - i,
{
    if i < t.len() && t[i] != c {
        lemma_index_from_bounds(t, c, i + 1);
    }
}

proof fn lemma_index_from_before(t: Seq<char>, c: char, i: int, j: int)
    requires
        0 <= i <= j < index_from(t, c, i),
        index_from(t, c, i) <= t.len(),
    ensures
        t[j] != c,
    decreases j - i,
{
    if i < t.len() && t[i] != c && i < j {
        lemma_index_from_before(t, c, i + 1, j);
    }
}

/// HTML entities decoded.
#[verifier::rlimit(50)]
pub fn decode_entities(s: &str) -> (r: String)
    ensures
        r@ == decode_spec(s@),
{
    let v = chars_of(s);
    let mut out: Vec<char> = Vec::new();
    let mut pos: usize = 0;
    assert(v@.skip(0) =~= v@);
    while pos < v.len()
        invariant
            pos <= v.len(),
            v@ == s@,
            out@ + decode_spec(v@.skip(pos as int)) == decode_spec(s@),
        decreases v.len() - pos,
    {
        let ghost rest = v@.skip(pos as int);
        let i = index_from_exec(&v, '&', pos);
        proof {
            lemma_index_from_skip(v@, '&', pos as int);
            lemma_index_from_bounds(rest, '&', 0);
            lemma_index_from_bounds(v@, '&', pos as int);
            if i < v.len() {
                assert(index_from(rest, '&', 0) == i - pos);
            } else {
                assert(index_from(rest, '&', 0) >= rest.len());
            }
        }
        if i >= v.len() {
            let ghost before = out@;
            let mut k = pos;
            while k < v.len()
                invariant
                    pos <= k <= v.len(),
                    out@ == before + v@.subrange(pos as int, k as int),
                decreases v.len() - k,
            {
                out.push(v[k]);
                k = k + 1;
                assert(out@ =~= before + v@.subrange(pos as int, k as int));
            }
            assert(v@.subrange(pos as int, v.len() as int) =~= rest);
            assert(decode_spec(rest) == rest);
            assert(v@.skip(v.len() as int) =~= Seq::<char>::empty());
            assert(decode_spec(v@.skip(v.len() as int)) =~= Seq::<char>::empty());
            pos = v.len();
        } else {
            let ghost before = out@;
            let mut k = pos;
            while k < i
                invariant
                    pos <= k <= i,
                    i < v.len(),
                    out@ == before + v@.subrange(pos as int, k as int),
                decreases i - k,
            {
                out.push(v[k]);
                k = k + 1;
                assert(out@ =~= before + v@.subrange(pos as int, k as int));
            }
            let ghost li = (i - pos) as int;
            let ghost after = rest.skip(li);
            assert(after =~= v@.skip(i as int));
            assert(rest.take(li) =~= v@.subrange(pos as int, i as int));
            let e = index_from_exec(&v, ';', i);
            proof {
                lemma_index_from_skip(v@, ';', i as int);
                lemma_index_from_bounds(after, ';', 0);
                lemma_index_from_bounds(v@, ';', i as int);
                assert(after[0] == '&');
                if e < v.len() {
                    assert(index_from(after, ';', 0) == e - i);
                } else {
                    assert(index_from(after, ';', 0) >= after.len());
                }
            }
            let mut decoded: Option<char> = None;
            if e < v.len() && e - i <= 10 && e - i >= 1 {
                let name = crate::text::sub_vec(&v, i + 1, e);
                assert(name@ =~= after.subrange(1, (e - i) as int));
                decoded = entity_char_exec(&name);
            }
            match decoded {
                Some(c) => {
                    out.push(c);
                    proof {
                        assert(after.skip((e - i) + 1) =~= v@.skip(e + 1));
                    }
                    pos = e + 1;
                },
                None => {
                    out.push('&');
                    proof {
                        assert(after.skip(1) =~= v@.skip(i + 1));
                        let end = index_from(after, ';', 0);
                        if 1 <= end < after.len() && end <= 10 {
                            assert(end == e - i);
                        }
                    }
                    pos = i + 1;
                },
            }
        }
    }
    proof {
        assert(v@.skip(pos as int) =~= Seq::<char>::empty());
        assert(decode_spec(v@.skip(pos as int)) =~= Seq::<char>::empty());
        assert(out@ =~= decode_spec(s@));
    }
    from_chars(&out)
}


// ---------------------------------------------------------------------------
// Words, and what a quote is held to
// ---------------------------------------------------------------------------

/// What `char::is_alphanumeric` says of a character.
pub uninterp spec fn alphanumeric(c: char) -> bool;

/// What `char::to_lowercase` yields for a character.
pub uninterp spec fn lowercase_of(c: char) -> Seq<char>;

/// `char::is_alphanumeric`. Claimed: the named property of the character.
#[verifier::external_body]
fn is_alphanumeric(c: char) -> (r: bool)
    ensures
        r == alphanumeric(c),
{
    c.is_alphanumeric()
}

/// `char::to_lowercase`, collected. Claimed: the named lowercase of the
/// character.
#[verifier::external_body]
fn char_lowercase(c: char) -> (r: String)
    ensures
        r@ == lowercase_of(c),
{
    c.to_lowercase().collect()
}

/// The words of a text as they are compared, built character by character:
/// letters and digits lowercased, `&` and every other character a single
/// space between words.
pub open spec fn words_state(s: Seq<char>) -> (Seq<char>, bool)
    decreases s.len(),
{
    if s.len() == 0 {
        (seq![], true)
    } else {
        let (out, space) = words_state(s.drop_last());
        let c = if s.last() == '&' {
            ' '
        } else {
            s.last()
        };
        if alphanumeric(c) {
            (out + lowercase_of(c), false)
        } else if !space {
            (out.push(' '), true)
        } else {
            (out, space)
        }
    }
}

/// Words, lowercased, with punctuation dropped: what a quote is checked in.
pub open spec fn words_spec(s: Seq<char>) -> Seq<char> {
    trim(words_state(s).0)
}

pub fn words(s: &str) -> (r: String)
    ensures
        r@ == words_spec(s@),
{
    let v = chars_of(s);
    let mut out = String::new();
    let mut space = true;
    let mut i: usize = 0;
    while i < v.len()
        invariant
            i <= v.len(),
            v@ == s@,
            (out@, space) == words_state(v@.take(i as int)),
        decreases v.len() - i,
    {
        assert(v@.take(i + 1).drop_last() =~= v@.take(i as int));
        assert(v@.take(i + 1).last() == v@[i as int]);
        let c = if v[i] == '&' {
            ' '
        } else {
            v[i]
        };
        if is_alphanumeric(c) {
            let l = char_lowercase(c);
            push_str(&mut out, l.as_str());
            space = false;
        } else if !space {
            crate::text::push_char(&mut out, ' ');
            space = true;
        }
        i = i + 1;
    }
    assert(v@.take(v.len() as int) =~= v@);
    trim_str(out.as_str())
}

/// Whether `needle` appears in `hay` word for word, ignoring case,
/// punctuation and spacing: what "quote" is held to.
pub open spec fn contains_words_spec(hay: Seq<char>, needle: Seq<char>) -> bool {
    let n = words_spec(needle);
    n.len() > 0 && crate::text::contains(" "@ + words_spec(hay) + " "@, " "@ + n + " "@)
}

pub fn contains_words(hay: &str, needle: &str) -> (r: bool)
    ensures
        r == contains_words_spec(hay@, needle@),
{
    let n = words(needle);
    if chars_of(n.as_str()).len() == 0 {
        return false;
    }
    let mut h = copy_str(" ");
    push_str(&mut h, words(hay).as_str());
    push_str(&mut h, " ");
    let mut m = copy_str(" ");
    push_str(&mut m, n.as_str());
    push_str(&mut m, " ");
    crate::text::contains_str(h.as_str(), m.as_str())
}

// ---------------------------------------------------------------------------
// Tags
// ---------------------------------------------------------------------------

/// The text outside tags, each tag replaced by a space.
pub open spec fn untagged(s: Seq<char>) -> (Seq<char>, bool)
    decreases s.len(),
{
    if s.len() == 0 {
        (seq![], false)
    } else {
        let (out, in_tag) = untagged(s.drop_last());
        let c = s.last();
        if c == '<' {
            (out.push(' '), true)
        } else if c == '>' && in_tag {
            (out, false)
        } else if !in_tag {
            (out.push(c), false)
        } else {
            (out, in_tag)
        }
    }
}

/// A fragment of HTML as the words a person reads: tags dropped, entities
/// decoded, whitespace collapsed.
pub open spec fn strip_tags_spec(s: Seq<char>) -> Seq<char> {
    join(words_from(decode_spec(untagged(s).0), 0), " "@)
}

pub fn strip_tags(s: &str) -> (r: String)
    ensures
        r@ == strip_tags_spec(s@),
{
    let v = chars_of(s);
    let mut out: Vec<char> = Vec::new();
    let mut in_tag = false;
    let mut i: usize = 0;
    while i < v.len()
        invariant
            i <= v.len(),
            v@ == s@,
            (out@, in_tag) == untagged(v@.take(i as int)),
        decreases v.len() - i,
    {
        assert(v@.take(i + 1).drop_last() =~= v@.take(i as int));
        assert(v@.take(i + 1).last() == v@[i as int]);
        let c = v[i];
        if c == '<' {
            in_tag = true;
            out.push(' ');
        } else if c == '>' && in_tag {
            in_tag = false;
        } else if !in_tag {
            out.push(c);
        }
        i = i + 1;
    }
    assert(v@.take(v.len() as int) =~= v@);
    let o = from_chars(&out);
    let d = decode_entities(o.as_str());
    crate::text::collapse(d.as_str())
}

/// Where `p` first occurs at or after `from`.
pub open spec fn find_spec(s: Seq<char>, p: Seq<char>, from: int) -> Option<int> {
    if exists|i: int| is_first_at(s, p, from, i) {
        Some(choose|i: int| is_first_at(s, p, from, i))
    } else {
        None
    }
}

pub(crate) proof fn lemma_find_is(s: Seq<char>, p: Seq<char>, from: int, i: int)
    requires
        is_first_at(s, p, from, i),
    ensures
        find_spec(s, p, from) == Some(i),
{
    let c = choose|k: int| is_first_at(s, p, from, k);
    assert(is_first_at(s, p, from, c));
    if c < i {
        assert(!occurs_at(s, p, c));
    } else if c > i {
        assert(!occurs_at(s, p, i));
    }
}

pub(crate) fn find_exec(v: &Vec<char>, p: &Vec<char>, from: usize) -> (r: Option<usize>)
    ensures
        match r {
            Some(i) => find_spec(v@, p@, from as int) == Some(i as int) && from <= i && i + p.len() <= v.len()
                && occurs_at(v@, p@, i as int),
            None => find_spec(v@, p@, from as int) is None,
        },
{
    match crate::text::find_from(v, p, from) {
        Some(i) => {
            proof {
                lemma_find_is(v@, p@, from as int, i as int);
            }
            Some(i)
        },
        None => None,
    }
}

/// `html` without its `<tag ...>...</tag>` blocks, found in its ASCII
/// lowercase `low`, from `i` on. A block with no end removes the rest.
pub open spec fn drop_from(h: Seq<char>, low: Seq<char>, open: Seq<char>, close: Seq<char>, i: int) -> Seq<char>
    decreases h.len() - i,
{
    if !(0 <= i <= h.len()) {
        seq![]
    } else {
        match find_spec(low, open, i) {
            None => h.skip(i),
            Some(st) => if i <= st <= h.len() {
                h.subrange(i, st) + match find_spec(low, close, st) {
                    Some(e) => if i < e + close.len() <= h.len() {
                        drop_from(h, low, open, close, e + close.len())
                    } else {
                        seq![]
                    },
                    None => seq![],
                }
            } else {
                seq![]
            },
        }
    }
}

pub open spec fn drop_blocks_spec(html: Seq<char>, tag: Seq<char>) -> Seq<char> {
    drop_from(html, lower(html), "<"@ + tag, "</"@ + tag + ">"@, 0)
}

/// Remove `<tag ...>...</tag>` blocks whose content is never text.
pub fn drop_blocks(html: &str, tag: &str) -> (r: String)
    ensures
        r@ == drop_blocks_spec(html@, tag@),
{
    let h = chars_of(html);
    let low = lower_vec(&h);
    let mut open_s = copy_str("<");
    push_str(&mut open_s, tag);
    let open = chars_of(open_s.as_str());
    let mut close_s = copy_str("</");
    push_str(&mut close_s, tag);
    push_str(&mut close_s, ">");
    let close = chars_of(close_s.as_str());
    proof {
        reveal_strlit("</");
        reveal_strlit(">");
    }
    assert(close@.len() >= 1);
    let mut out: Vec<char> = Vec::new();
    let mut i: usize = 0;
    let mut stop = false;
    while i < h.len() && !stop
        invariant
            i <= h.len(),
            h@ == html@,
            low@ == lower(html@),
            low@.len() == h@.len(),
            open@ == "<"@ + tag@,
            close@ == "</"@ + tag@ + ">"@,
            close@.len() >= 1,
            stop ==> out@ == drop_blocks_spec(html@, tag@),
            !stop ==> out@ + drop_from(h@, low@, open@, close@, i as int) == drop_blocks_spec(html@, tag@),
        decreases h.len() - i + (if stop {
            0int
        } else {
            1int
        }),
    {
        match find_exec(&low, &open, i) {
            None => {
                let ghost before = out@;
                let mut k = i;
                while k < h.len()
                    invariant
                        i <= k <= h.len(),
                        out@ == before + h@.subrange(i as int, k as int),
                    decreases h.len() - k,
                {
                    out.push(h[k]);
                    k = k + 1;
                    assert(out@ =~= before + h@.subrange(i as int, k as int));
                }
                assert(h@.subrange(i as int, h.len() as int) =~= h@.skip(i as int));
                stop = true;
            },
            Some(st) => {
                let ghost before = out@;
                let mut k = i;
                while k < st
                    invariant
                        i <= k <= st,
                        st <= h.len(),
                        out@ == before + h@.subrange(i as int, k as int),
                    decreases st - k,
                {
                    out.push(h[k]);
                    k = k + 1;
                    assert(out@ =~= before + h@.subrange(i as int, k as int));
                }
                match find_exec(&low, &close, st) {
                    Some(e) => {
                        i = e + close.len();
                    },
                    None => {
                        assert(out@ =~= out@ + Seq::<char>::empty());
                        stop = true;
                    },
                }
            },
        }
    }
    proof {
        if !stop {
            assert(i == h.len());
            assert(h@.skip(i as int) =~= Seq::<char>::empty());
            assert(out@ + Seq::<char>::empty() =~= out@);
        }
    }
    from_chars(&out)
}


pub open spec fn ascii_alnum(c: char) -> bool {
    ('0' <= c && c <= '9') || ('a' <= c && c <= 'z') || ('A' <= c && c <= 'Z')
}

fn ascii_alnum_exec(c: char) -> (r: bool)
    ensures
        r == ascii_alnum(c),
{
    ('0' <= c && c <= '9') || ('a' <= c && c <= 'z') || ('A' <= c && c <= 'Z')
}

/// Where the first whitespace or `>` at or after `i` is, or the end.
pub open spec fn value_end(s: Seq<char>, i: int) -> int
    decreases s.len() - i,
{
    if i < 0 || i >= s.len() {
        s.len() as int
    } else if crate::text::is_ws(s[i]) || s[i] == '>' {
        i
    } else {
        value_end(s, i + 1)
    }
}

/// An attribute's value as written after `=`: quoted up to the closing
/// quote (or the end), or bare up to whitespace or `>`, entities decoded.
pub open spec fn attr_value(v: Seq<char>) -> Seq<char> {
    if v.len() > 0 && (v[0] == '"' || v[0] == '\'') {
        let body = v.skip(1);
        decode_spec(body.take(index_from(body, v[0], 0)))
    } else {
        decode_spec(v.take(value_end(v, 0)))
    }
}

/// The value of attribute `name` in an opening tag, looking from `from` on
/// in its lowercase `low`: the first occurrence that starts a name (nothing
/// alphanumeric before it) and is followed by `=`.
pub open spec fn attr_from(tag: Seq<char>, low: Seq<char>, name: Seq<char>, from: int) -> Option<Seq<char>>
    decreases tag.len() - from,
{
    match find_spec(low, name, from) {
        None => None,
        Some(p) => if !(0 <= from <= p && p + name.len() <= tag.len() && name.len() > 0) {
            None
        } else {
            let before_ok = p == 0 || !ascii_alnum(low[p - 1]);
            let trimmed = crate::text::trim_start(tag.skip(p + name.len()));
            if before_ok && trimmed.len() > 0 && trimmed[0] == '=' {
                Some(attr_value(crate::text::trim_start(trimmed.skip(1))))
            } else {
                attr_from(tag, low, name, p + name.len())
            }
        },
    }
}

pub open spec fn attr_spec(tag: Seq<char>, name: Seq<char>) -> Option<Seq<char>> {
    attr_from(tag, lower(tag), name, 0)
}

proof fn lemma_value_end(s: Seq<char>, i: int, e: int)
    requires
        0 <= i <= e <= s.len(),
        forall|j: int| i <= j < e ==> !(crate::text::is_ws(s[j]) || s[j] == '>'),
        e < s.len() ==> crate::text::is_ws(s[e]) || s[e] == '>',
    ensures
        value_end(s, i) == e,
    decreases e - i,
{
    if i < e {
        lemma_value_end(s, i + 1, e);
    }
}

/// Skip leading whitespace of `v` from `i`.
fn skip_ws(v: &Vec<char>, i: usize) -> (r: usize)
    requires
        i <= v.len(),
    ensures
        i <= r <= v.len(),
        crate::text::trim_start(v@.skip(i as int)) == v@.skip(r as int),
{
    let mut k = i;
    while k < v.len() && crate::text::is_ws_char(v[k])
        invariant
            i <= k <= v.len(),
            forall|j: int| i <= j < k ==> crate::text::is_ws(#[trigger] v@[j]),
        decreases v.len() - k,
    {
        k = k + 1;
    }
    proof {
        let t = v@.skip(i as int);
        assert forall|j: int| 0 <= j < k - i implies crate::text::is_ws(#[trigger] t[j]) by {
            assert(t[j] == v@[j + i]);
        }
        crate::text::lemma_trim_start_skip(t, (k - i) as int);
        assert(t.subrange((k - i) as int, t.len() as int) =~= v@.skip(k as int));
        let u = v@.skip(k as int);
        if u.len() > 0 {
            assert(u[0] == v@[k as int]);
        }
        assert(crate::text::trim_start(u) == u);
    }
    k
}

fn attr_value_exec(t: &Vec<char>, a: usize) -> (r: String)
    requires
        a <= t.len(),
    ensures
        r@ == attr_value(t@.skip(a as int)),
{
    let ghost v = t@.skip(a as int);
    if a < t.len() && (t[a] == '"' || t[a] == '\'') {
        let q = t[a];
        assert(v[0] == q);
        let body_start = a + 1;
        let e = index_from_exec(t, q, body_start);
        proof {
            let body = v.skip(1);
            assert(body =~= t@.skip(body_start as int));
            lemma_index_from_skip(t@, q, body_start as int);
            lemma_index_from_bounds(t@, q, body_start as int);
            assert(index_from(body, q, 0) == e - body_start);
            assert(body.take(index_from(body, q, 0)) =~= t@.subrange(body_start as int, e as int));
        }
        let inner = crate::text::from_sub(t, body_start, e);
        decode_entities(inner.as_str())
    } else {
        let mut e = a;
        while e < t.len() && !(crate::text::is_ws_char(t[e]) || t[e] == '>')
            invariant
                a <= e <= t.len(),
                forall|j: int| a <= j < e ==> !(crate::text::is_ws(t@[j]) || t@[j] == '>'),
            decreases t.len() - e,
        {
            e = e + 1;
        }
        proof {
            assert forall|j: int| 0 <= j < e - a implies !(crate::text::is_ws(v[j]) || v[j] == '>') by {
                assert(v[j] == t@[j + a]);
            }
            if e < t.len() {
                assert(v[e - a] == t@[e as int]);
            }
            lemma_value_end(v, 0, (e - a) as int);
            assert(v.take(value_end(v, 0)) =~= t@.subrange(a as int, e as int));
        }
        let inner = crate::text::from_sub(t, a, e);
        decode_entities(inner.as_str())
    }
}

/// The value of attribute `name` in an opening tag.
pub fn attr(tag: &str, name: &str) -> (r: Option<String>)
    requires
        name@.len() > 0,
    ensures
        match r {
            Some(v) => attr_spec(tag@, name@) == Some(v@),
            None => attr_spec(tag@, name@) is None,
        },
{
    let t = chars_of(tag);
    let low = lower_vec(&t);
    let nm = chars_of(name);
    let mut from: usize = 0;
    while from <= t.len()
        invariant
            from <= t.len() + 1,
            t@ == tag@,
            low@ == lower(tag@),
            low@.len() == t@.len(),
            nm@ == name@,
            nm@.len() > 0,
            from <= t.len() ==> attr_spec(tag@, name@) == attr_from(t@, low@, nm@, from as int),
            from > t.len() ==> attr_spec(tag@, name@) is None,
        decreases t.len() + 1 - from,
    {
        match find_exec(&low, &nm, from) {
            None => {
                return None;
            },
            Some(p) => {
                let end = p + nm.len();
                let before_ok = p == 0 || !ascii_alnum_exec(low[p - 1]);
                let a = skip_ws(&t, end);
                if before_ok && a < t.len() && t[a] == '=' {
                    let b = skip_ws(&t, a + 1);
                    proof {
                        let trimmed = crate::text::trim_start(t@.skip(end as int));
                        assert(trimmed == t@.skip(a as int));
                        assert(trimmed[0] == t@[a as int]);
                        assert(trimmed.skip(1) =~= t@.skip(a + 1));
                    }
                    let value = attr_value_exec(&t, b);
                    return Some(value);
                }
                proof {
                    let trimmed = crate::text::trim_start(t@.skip(end as int));
                    assert(trimmed == t@.skip(a as int));
                    if a < t.len() {
                        assert(trimmed[0] == t@[a as int]);
                    }
                }
                from = end;
                if from == t.len() {
                    proof {
                        assert(find_spec(low@, nm@, from as int) is None) by {
                            if exists|i: int| is_first_at(low@, nm@, from as int, i) {
                                let i = choose|i: int| is_first_at(low@, nm@, from as int, i);
                                assert(occurs_at(low@, nm@, i));
                            }
                        }
                    }
                    return None;
                }
            },
        }
    }
    None
}


/// Every `<tag ...>inner</tag>` from `i` on, as (opening tag, inner html),
/// found in the lowercase `low`. A `<tag` followed by a letter or digit is
/// a longer name and is passed over.
pub open spec fn elems_from(h: Seq<char>, low: Seq<char>, open: Seq<char>, close: Seq<char>, i: int) -> Seq<
    (Seq<char>, Seq<char>),
>
    decreases h.len() - i,
{
    if !(0 <= i <= h.len()) {
        seq![]
    } else {
        match find_spec(low, open, i) {
            None => seq![],
            Some(s) => if !(i <= s && s + open.len() <= h.len() && open.len() > 0) {
                seq![]
            } else {
                let after = s + open.len();
                let next = if after < low.len() {
                    low[after]
                } else {
                    '>'
                };
                if ascii_alnum(next) {
                    elems_from(h, low, open, close, after)
                } else {
                    match find_spec(low, seq!['>'], s) {
                        None => seq![],
                        Some(gt) => if !(s <= gt < h.len()) {
                            seq![]
                        } else {
                            match find_spec(low, close, gt) {
                                None => seq![],
                                Some(e) => if !(gt < e && e + close.len() <= h.len()) {
                                    seq![]
                                } else {
                                    seq![(h.subrange(s, gt + 1), h.subrange(gt + 1, e))] + elems_from(
                                        h,
                                        low,
                                        open,
                                        close,
                                        e + close.len(),
                                    )
                                },
                            }
                        },
                    }
                }
            },
        }
    }
}

pub open spec fn elements_spec(h: Seq<char>, tag: Seq<char>) -> Seq<(Seq<char>, Seq<char>)> {
    elems_from(h, lower(h), "<"@ + tag, "</"@ + tag + ">"@, 0)
}

pub open spec fn pairs_view(v: Seq<(String, String)>) -> Seq<(Seq<char>, Seq<char>)> {
    v.map_values(|p: (String, String)| (p.0@, p.1@))
}

/// Every `<tag ...>inner</tag>`, as (opening tag, inner html).
pub fn elements(html: &str, tag: &str) -> (r: Vec<(String, String)>)
    requires
        tag@.len() > 0,
    ensures
        pairs_view(r@) == elements_spec(html@, tag@),
{
    let h = chars_of(html);
    let low = lower_vec(&h);
    let mut open_s = copy_str("<");
    push_str(&mut open_s, tag);
    let open = chars_of(open_s.as_str());
    let mut close_s = copy_str("</");
    push_str(&mut close_s, tag);
    push_str(&mut close_s, ">");
    let close = chars_of(close_s.as_str());
    let gt_v = chars_of(">");
    proof {
        reveal_strlit("</");
        reveal_strlit(">");
        reveal_strlit("<");
        assert(gt_v@ =~= seq!['>']);
        assert(close@[0] == "</"@[0]);
    }
    let mut out: Vec<(String, String)> = Vec::new();
    let mut i: usize = 0;
    let mut stop = false;
    while i <= h.len() && !stop
        invariant
            i <= h.len() + 1,
            h@ == html@,
            low@ == lower(html@),
            low@.len() == h@.len(),
            open@ == "<"@ + tag@,
            close@ == "</"@ + tag@ + ">"@,
            gt_v@ == seq!['>'],
            open@.len() >= 2,
            close@.len() >= 3,
            close@[0] == '<',
            stop ==> pairs_view(out@) == elements_spec(html@, tag@),
            !stop ==> i <= h.len() && pairs_view(out@) + elems_from(h@, low@, open@, close@, i as int)
                == elements_spec(html@, tag@),
        decreases h.len() + 1 - i + (if stop {
            0int
        } else {
            1int
        }),
    {
        match find_exec(&low, &open, i) {
            None => {
                assert(pairs_view(out@) + Seq::<(Seq<char>, Seq<char>)>::empty() =~= pairs_view(out@));
                stop = true;
            },
            Some(s) => {
                let after = s + open.len();
                let next = if after < low.len() {
                    low[after]
                } else {
                    '>'
                };
                if ascii_alnum_exec(next) {
                    i = after;
                } else {
                    match find_exec(&low, &gt_v, s) {
                        None => {
                            assert(pairs_view(out@) + Seq::<(Seq<char>, Seq<char>)>::empty() =~= pairs_view(out@));
                            stop = true;
                        },
                        Some(gt) => {
                            match find_exec(&low, &close, gt) {
                                None => {
                                    assert(pairs_view(out@) + Seq::<(Seq<char>, Seq<char>)>::empty()
                                        =~= pairs_view(out@));
                                    stop = true;
                                },
                                Some(e) => {
                                    proof {
                                        assert(low@.subrange(gt as int, gt + 1) == gt_v@);
                                        assert(low@[gt as int] == low@.subrange(gt as int, gt + 1)[0]);
                                        assert(low@[gt as int] == '>');
                                        assert(close@[0] == '<');
                                        if e == gt {
                                            assert(low@.subrange(e as int, e + close@.len()) == close@);
                                            assert(low@[e as int] == low@.subrange(e as int, e + close@.len())[0]);
                                        }
                                    }
                                    let t = crate::text::from_sub(&h, s, gt + 1);
                                    let inner = crate::text::from_sub(&h, gt + 1, e);
                                    let ghost before = out@;
                                    out.push((t, inner));
                                    assert(pairs_view(out@) =~= pairs_view(before) + seq![
                                        (h@.subrange(s as int, gt + 1), h@.subrange(gt + 1, e as int)),
                                    ]);
                                    i = e + close.len();
                                },
                            }
                        },
                    }
                }
            },
        }
    }
    out
}

/// What `reqwest::Url` makes of `href` joined onto `base`, as text; `None`
/// when either will not parse.
pub uninterp spec fn url_join(base: Seq<char>, href: Seq<char>) -> Option<Seq<char>>;

/// `reqwest::Url::parse(base)` then `join(href)`, printed. Claimed: the
/// result is the named join of the two texts.
#[verifier::external_body]
fn join_url(base: &str, href: &str) -> (r: Option<String>)
    ensures
        match r {
            Some(u) => url_join(base@, href@) == Some(u@),
            None => url_join(base@, href@) is None,
        },
{
    match reqwest::Url::parse(base).and_then(|b| b.join(href)) {
        Ok(u) => Some(u.to_string()),
        Err(_) => None,
    }
}

/// A link made absolute against the page's address; a link that will not
/// join stays as it was written.
pub open spec fn absolute_spec(base: Seq<char>, href: Seq<char>) -> Seq<char> {
    match url_join(base, href) {
        Some(u) => u,
        None => href,
    }
}

pub fn absolute(base: &str, href: &str) -> (r: String)
    ensures
        r@ == absolute_spec(base@, href@),
{
    match join_url(base, href) {
        Some(u) => u,
        None => copy_str(href),
    }
}


pub ghost struct SiteTextV {
    pub url: Seq<char>,
    pub title: Seq<char>,
    pub description: Seq<char>,
    pub headings: Seq<Seq<char>>,
    pub text: Seq<char>,
    pub links: Seq<(Seq<char>, Seq<char>)>,
}

impl View for SiteText {
    type V = SiteTextV;

    open spec fn view(&self) -> SiteTextV {
        SiteTextV {
            url: self.url@,
            title: self.title@,
            description: self.description@,
            headings: str_views(self.headings@),
            text: self.text@,
            links: self.links@.map_values(|l: SiteLink| (l.href@, l.text@)),
        }
    }
}

/// The page with blocks that are never text taken out.
pub open spec fn cleaned_html(h: Seq<char>) -> Seq<char> {
    drop_blocks_spec(
        drop_blocks_spec(
            drop_blocks_spec(drop_blocks_spec(drop_blocks_spec(h, "script"@), "style"@), "noscript"@),
            "svg"@,
        ),
        "template"@,
    )
}

pub open spec fn title_spec(c: Seq<char>) -> Seq<char> {
    let es = elements_spec(c, "title"@);
    if es.len() > 0 {
        strip_tags_spec(es[0].1)
    } else {
        seq![]
    }
}

pub open spec fn or_empty(o: Option<Seq<char>>) -> Seq<char> {
    match o {
        Some(v) => v,
        None => seq![],
    }
}

/// What a `<meta>` tag names itself: its `name`, else its `property`,
/// lowercased.
pub open spec fn meta_key(tag: Seq<char>) -> Seq<char> {
    lower(match attr_spec(tag, "name"@) {
        Some(v) => v,
        None => or_empty(attr_spec(tag, "property"@)),
    })
}

/// The first description a page's `<meta>` tags give, from `i` on.
spec fn desc_from(c: Seq<char>, low: Seq<char>, i: int, d: Seq<char>) -> Seq<char>
    decreases c.len() - i,
{
    if !(0 <= i <= c.len()) {
        d
    } else {
        match find_spec(low, "<meta"@, i) {
            None => d,
            Some(s) => match find_spec(low, ">"@, s) {
                None => d,
                Some(e) => if !(i <= s <= e < c.len()) {
                    d
                } else {
                    let tag = c.subrange(s, e + 1);
                    let key = meta_key(tag);
                    let d2 = if (key == "description"@ || key == "og:description"@) && d.len() == 0 {
                        join(words_from(or_empty(attr_spec(tag, "content"@)), 0), " "@)
                    } else {
                        d
                    };
                    desc_from(c, low, e + 1, d2)
                },
            },
        }
    }
}

/// Headings added in order, each once, blank ones left out.
pub open spec fn add_headings(hs: Seq<Seq<char>>, es: Seq<(Seq<char>, Seq<char>)>) -> Seq<Seq<char>>
    decreases es.len(),
{
    if es.len() == 0 {
        hs
    } else {
        let prev = add_headings(hs, es.drop_last());
        let h = strip_tags_spec(es.last().1);
        if h.len() > 0 && !prev.contains(h) {
            prev.push(h)
        } else {
            prev
        }
    }
}

pub open spec fn headings_spec(c: Seq<char>) -> Seq<Seq<char>> {
    add_headings(
        add_headings(add_headings(seq![], elements_spec(c, "h1"@)), elements_spec(c, "h2"@)),
        elements_spec(c, "h3"@),
    )
}

/// A meta tag that gives the page's description.
pub open spec fn describes(tag: Seq<char>) -> bool {
    (meta_key(tag) == "description"@ || meta_key(tag) == "og:description"@) && meta_content(tag).len() > 0
}

/// The description is the content of the first meta tag that describes the
/// page, whitespace collapsed, and empty exactly when no tag does.
pub proof fn law_the_description_is_the_first_one_given(tags: Seq<Seq<char>>)
    ensures
        first_description(tags).len() == 0 <==> forall|j: int| 0 <= j < tags.len() ==> !describes(#[trigger] tags[j]),
        first_description(tags).len() > 0 ==> exists|k: int|
            0 <= k < tags.len() && describes(tags[k]) && first_description(tags) == meta_content(tags[k])
                && forall|j: int| 0 <= j < k ==> !describes(#[trigger] tags[j]),
    decreases tags.len(),
{
    if tags.len() > 0 {
        let d = tags.drop_first();
        law_the_description_is_the_first_one_given(d);
        assert forall|j: int| 0 <= j < d.len() implies #[trigger] d[j] == tags[j + 1] by {}
        if describes(tags[0]) {
            assert(forall|j: int| 0 <= j < 0 ==> !describes(#[trigger] tags[j]));
        } else {
            if first_description(d).len() > 0 {
                let k = choose|k: int|
                    0 <= k < d.len() && describes(d[k]) && first_description(d) == meta_content(d[k])
                        && forall|j: int| 0 <= j < k ==> !describes(#[trigger] d[j]);
                assert(tags[k + 1] == d[k]);
                assert forall|j: int| 0 <= j < k + 1 implies !describes(#[trigger] tags[j]) by {
                    if j > 0 {
                        assert(tags[j] == d[j - 1]);
                    }
                }
            } else {
                assert forall|j: int| 0 <= j < tags.len() implies !describes(#[trigger] tags[j]) by {
                    if j > 0 {
                        assert(tags[j] == d[j - 1]);
                    }
                }
            }
        }
    }
}

/// An element that links somewhere: its `href` is there and not blank.
pub open spec fn links_somewhere(e: (Seq<char>, Seq<char>)) -> bool {
    match attr_spec(e.0, "href"@) {
        Some(h) => trim(h).len() > 0,
        None => false,
    }
}

/// Every `<a>` with an address becomes one link, in order, and nothing
/// else does: the k-th link is the k-th such element's address, trimmed and
/// made absolute against the page's, with the text it shows.
pub proof fn law_every_link_with_an_address_is_kept(url: Seq<char>, es: Seq<(Seq<char>, Seq<char>)>)
    ensures
        links_spec(url, es).len() == es.filter(|e: (Seq<char>, Seq<char>)| links_somewhere(e)).len(),
        forall|k: int|
            0 <= k < links_spec(url, es).len() ==> #[trigger] links_spec(url, es)[k] == (
                absolute_spec(url, trim(or_empty(attr_spec(es.filter(|e: (Seq<char>, Seq<char>)| links_somewhere(e))[k].0, "href"@)))),
                strip_tags_spec(es.filter(|e: (Seq<char>, Seq<char>)| links_somewhere(e))[k].1),
            ),
    decreases es.len(),
{
    reveal(Seq::filter);
    let p = |e: (Seq<char>, Seq<char>)| links_somewhere(e);
    if es.len() > 0 {
        let d = es.drop_last();
        law_every_link_with_an_address_is_kept(url, d);
        let f = es.filter(p);
        let fd = d.filter(p);
        if links_somewhere(es.last()) {
            assert(f == fd.push(es.last()));
            assert forall|k: int| 0 <= k < fd.len() implies #[trigger] f[k] == fd[k] by {}
        } else {
            assert(f == fd);
        }
    }
}

/// A page read as text keeps the address it was read from; its title is
/// what its first `<title>` shows, or nothing without one; and its words are
/// what the page shows from `<body` on (all of it without one), once
/// scripts, styles and the like are taken out.
pub proof fn law_the_title_and_words_of_a_page(html: Seq<char>, url: Seq<char>)
    ensures
        ({
            let c = cleaned_html(html);
            let r = html_to_text_spec(html, url);
            &&& r.url == url
            &&& elements_spec(c, "title"@).len() > 0 ==> r.title == strip_tags_spec(elements_spec(c, "title"@)[0].1)
            &&& elements_spec(c, "title"@).len() == 0 ==> r.title.len() == 0
            &&& r.text == strip_tags_spec(
                match find_spec(lower(c), "<body"@, 0) {
                    Some(b) => c.skip(b),
                    None => c,
                },
            )
            &&& r.links == links_spec(url, elements_spec(c, "a"@))
            &&& r.description == first_description(meta_tags_from(c, lower(c), 0))
        }),
{
}

/// No heading twice.
pub open spec fn distinct_texts(hs: Seq<Seq<char>>) -> bool {
    forall|i: int, j: int| 0 <= i < j < hs.len() ==> hs[i] != hs[j]
}

/// A text an element of `es` shows, when it shows any.
pub open spec fn shown_by(es: Seq<(Seq<char>, Seq<char>)>, x: Seq<char>) -> bool {
    exists|k: int| 0 <= k < es.len() && strip_tags_spec(#[trigger] es[k].1) == x
}

proof fn lemma_add_headings(hs: Seq<Seq<char>>, es: Seq<(Seq<char>, Seq<char>)>)
    ensures
        forall|i: int| 0 <= i < hs.len() ==> add_headings(hs, es).contains(#[trigger] hs[i]),
        forall|k: int|
            0 <= k < es.len() && strip_tags_spec(#[trigger] es[k].1).len() > 0 ==> add_headings(hs, es).contains(
                strip_tags_spec(es[k].1),
            ),
        forall|i: int|
            0 <= i < add_headings(hs, es).len() ==> hs.contains(#[trigger] add_headings(hs, es)[i]) || (
            add_headings(hs, es)[i].len() > 0 && shown_by(es, add_headings(hs, es)[i])),
        distinct_texts(hs) ==> distinct_texts(add_headings(hs, es)),
    decreases es.len(),
{
    if es.len() > 0 {
        let d = es.drop_last();
        lemma_add_headings(hs, d);
        let prev = add_headings(hs, d);
        let h = strip_tags_spec(es.last().1);
        let r = add_headings(hs, es);
        assert forall|k: int| 0 <= k < d.len() implies #[trigger] d[k] == es[k] by {}
        if h.len() > 0 && !prev.contains(h) {
            assert(r == prev.push(h));
            assert(r[prev.len() as int] == h);
            assert forall|i: int| 0 <= i < hs.len() implies r.contains(#[trigger] hs[i]) by {
                let j = choose|j: int| 0 <= j < prev.len() && prev[j] == hs[i];
                assert(r[j] == hs[i]);
            }
            assert forall|k: int| 0 <= k < es.len() && strip_tags_spec(#[trigger] es[k].1).len() > 0 implies r.contains(
                strip_tags_spec(es[k].1),
            ) by {
                if k < d.len() {
                    assert(d[k] == es[k]);
                    let j = choose|j: int| 0 <= j < prev.len() && prev[j] == strip_tags_spec(d[k].1);
                    assert(r[j] == prev[j]);
                }
            }
            assert forall|i: int| 0 <= i < r.len() implies hs.contains(#[trigger] r[i]) || (r[i].len() > 0
                && shown_by(es, r[i])) by {
                if i < prev.len() {
                    assert(r[i] == prev[i]);
                    if !hs.contains(prev[i]) {
                        let k = choose|k: int| 0 <= k < d.len() && strip_tags_spec(#[trigger] d[k].1) == prev[i];
                        assert(es[k] == d[k]);
                    }
                } else {
                    assert(es[es.len() - 1] == es.last());
                }
            }
            if distinct_texts(hs) {
                assert forall|i: int, j: int| 0 <= i < j < r.len() implies r[i] != r[j] by {
                    if j == prev.len() {
                        assert(r[i] == prev[i]);
                    } else {
                        assert(r[i] == prev[i] && r[j] == prev[j]);
                    }
                }
            }
        } else {
            assert(r == prev);
            assert forall|k: int| 0 <= k < es.len() && strip_tags_spec(#[trigger] es[k].1).len() > 0 implies r.contains(
                strip_tags_spec(es[k].1),
            ) by {
                if k < d.len() {
                    assert(d[k] == es[k]);
                }
            }
            assert forall|i: int| 0 <= i < r.len() implies hs.contains(#[trigger] r[i]) || (r[i].len() > 0
                && shown_by(es, r[i])) by {
                if !hs.contains(r[i]) {
                    let k = choose|k: int| 0 <= k < d.len() && strip_tags_spec(#[trigger] d[k].1) == r[i];
                    assert(es[k] == d[k]);
                }
            }
        }
    }
}

/// The headings of a page are the texts its `h1`, `h2` and `h3` elements
/// show: every one of them that shows something is there, nothing else is,
/// none is blank, and none comes twice.
pub proof fn law_every_heading_is_kept(html: Seq<char>, url: Seq<char>)
    ensures
        ({
            let c = cleaned_html(html);
            let hs = html_to_text_spec(html, url).headings;
            &&& forall|k: int|
                0 <= k < elements_spec(c, "h1"@).len() && strip_tags_spec(#[trigger] elements_spec(c, "h1"@)[k].1).len()
                    > 0 ==> hs.contains(strip_tags_spec(elements_spec(c, "h1"@)[k].1))
            &&& forall|k: int|
                0 <= k < elements_spec(c, "h2"@).len() && strip_tags_spec(#[trigger] elements_spec(c, "h2"@)[k].1).len()
                    > 0 ==> hs.contains(strip_tags_spec(elements_spec(c, "h2"@)[k].1))
            &&& forall|k: int|
                0 <= k < elements_spec(c, "h3"@).len() && strip_tags_spec(#[trigger] elements_spec(c, "h3"@)[k].1).len()
                    > 0 ==> hs.contains(strip_tags_spec(elements_spec(c, "h3"@)[k].1))
            &&& forall|i: int|
                0 <= i < hs.len() ==> (#[trigger] hs[i]).len() > 0 && (shown_by(elements_spec(c, "h1"@), hs[i])
                    || shown_by(elements_spec(c, "h2"@), hs[i]) || shown_by(elements_spec(c, "h3"@), hs[i]))
            &&& distinct_texts(hs)
        }),
{
    let c = cleaned_html(html);
    let e1 = elements_spec(c, "h1"@);
    let e2 = elements_spec(c, "h2"@);
    let e3 = elements_spec(c, "h3"@);
    let empty: Seq<Seq<char>> = seq![];
    lemma_add_headings(empty, e1);
    let a1 = add_headings(empty, e1);
    lemma_add_headings(a1, e2);
    let a2 = add_headings(a1, e2);
    lemma_add_headings(a2, e3);
    let a3 = add_headings(a2, e3);
    assert(a3 == html_to_text_spec(html, url).headings);
    assert forall|k: int| 0 <= k < e1.len() && strip_tags_spec(#[trigger] e1[k].1).len() > 0 implies a3.contains(
        strip_tags_spec(e1[k].1),
    ) by {
        let j = choose|j: int| 0 <= j < a1.len() && a1[j] == strip_tags_spec(e1[k].1);
        assert(a1.contains(a1[j]));
        let j2 = choose|j2: int| 0 <= j2 < a2.len() && a2[j2] == a1[j];
        assert(a2.contains(a2[j2]));
    }
    assert forall|k: int| 0 <= k < e2.len() && strip_tags_spec(#[trigger] e2[k].1).len() > 0 implies a3.contains(
        strip_tags_spec(e2[k].1),
    ) by {
        let j = choose|j: int| 0 <= j < a2.len() && a2[j] == strip_tags_spec(e2[k].1);
        assert(a2.contains(a2[j]));
    }
    assert forall|i: int| 0 <= i < a3.len() implies (#[trigger] a3[i]).len() > 0 && (shown_by(e1, a3[i]) || shown_by(
        e2,
        a3[i],
    ) || shown_by(e3, a3[i])) by {
        if a2.contains(a3[i]) {
            let j = choose|j: int| 0 <= j < a2.len() && a2[j] == a3[i];
            if a1.contains(a2[j]) {
                let j1 = choose|j1: int| 0 <= j1 < a1.len() && a1[j1] == a2[j];
                assert(!empty.contains(a1[j1]));
            }
        }
    }
}

/// The page's links with an address: made absolute, with their text.
pub open spec fn links_spec(url: Seq<char>, es: Seq<(Seq<char>, Seq<char>)>) -> Seq<(Seq<char>, Seq<char>)>
    decreases es.len(),
{
    if es.len() == 0 {
        seq![]
    } else {
        let prev = links_spec(url, es.drop_last());
        match attr_spec(es.last().0, "href"@) {
            None => prev,
            Some(href) => if trim(href).len() == 0 {
                prev
            } else {
                prev.push((absolute_spec(url, trim(href)), strip_tags_spec(es.last().1)))
            },
        }
    }
}

pub open spec fn body_spec(c: Seq<char>) -> Seq<char> {
    match find_spec(lower(c), "<body"@, 0) {
        Some(b) => c.skip(b),
        None => c,
    }
}

/// The `<meta ...>` tags of a page from `i` on, in order: each runs from a
/// `<meta` (in any case) to the next `>`.
pub open spec fn meta_tags_from(c: Seq<char>, low: Seq<char>, i: int) -> Seq<Seq<char>>
    decreases c.len() - i,
{
    if !(0 <= i <= c.len()) {
        seq![]
    } else {
        match find_spec(low, "<meta"@, i) {
            None => seq![],
            Some(s) => match find_spec(low, ">"@, s) {
                None => seq![],
                Some(e) => if !(i <= s <= e < c.len()) {
                    seq![]
                } else {
                    seq![c.subrange(s, e + 1)] + meta_tags_from(c, low, e + 1)
                },
            },
        }
    }
}

/// A tag's `content`, its words joined by single spaces.
pub open spec fn meta_content(tag: Seq<char>) -> Seq<char> {
    join(words_from(or_empty(attr_spec(tag, "content"@)), 0), " "@)
}

/// The page's description: the content of the first `description` or
/// `og:description` meta tag that has any, whitespace collapsed; nothing
/// when none has.
pub open spec fn first_description(tags: Seq<Seq<char>>) -> Seq<char>
    decreases tags.len(),
{
    if tags.len() == 0 {
        seq![]
    } else {
        let key = meta_key(tags[0]);
        if (key == "description"@ || key == "og:description"@) && meta_content(tags[0]).len() > 0 {
            meta_content(tags[0])
        } else {
            first_description(tags.drop_first())
        }
    }
}

proof fn lemma_desc_from(c: Seq<char>, low: Seq<char>, i: int, d: Seq<char>)
    ensures
        desc_from(c, low, i, d) == if d.len() > 0 {
            d
        } else {
            first_description(meta_tags_from(c, low, i))
        },
    decreases c.len() - i,
{
    if 0 <= i <= c.len() {
        if let Some(s) = find_spec(low, "<meta"@, i) {
            if let Some(e) = find_spec(low, ">"@, s) {
                if i <= s <= e < c.len() {
                    let tag = c.subrange(s, e + 1);
                    let key = meta_key(tag);
                    let d2 = if (key == "description"@ || key == "og:description"@) && d.len() == 0 {
                        meta_content(tag)
                    } else {
                        d
                    };
                    lemma_desc_from(c, low, e + 1, d2);
                    let ts = seq![tag] + meta_tags_from(c, low, e + 1);
                    assert(ts[0] == tag);
                    assert(ts.drop_first() =~= meta_tags_from(c, low, e + 1));
                }
            }
        }
    }
}

/// A page as text: its title, description, headings, words and links.
pub open spec fn html_to_text_spec(html: Seq<char>, url: Seq<char>) -> SiteTextV {
    let c = cleaned_html(html);
    SiteTextV {
        url,
        title: title_spec(c),
        description: first_description(meta_tags_from(c, lower(c), 0)),
        headings: headings_spec(c),
        text: strip_tags_spec(body_spec(c)),
        links: links_spec(url, elements_spec(c, "a"@)),
    }
}

fn lit_vec(s: &str) -> (r: Vec<char>)
    ensures
        r@ == s@,
{
    chars_of(s)
}

fn push_headings(hs: &mut Vec<String>, c: &str, tag: &str)
    requires
        tag@.len() > 0,
    ensures
        str_views(final(hs)@) == add_headings(str_views(old(hs)@), elements_spec(c@, tag@)),
{
    let es = elements(c, tag);
    let ghost start = str_views(hs@);
    let ghost ev = pairs_view(es@);
    let mut i: usize = 0;
    while i < es.len()
        invariant
            i <= es.len(),
            ev == pairs_view(es@),
            ev == elements_spec(c@, tag@),
            str_views(hs@) == add_headings(start, ev.take(i as int)),
        decreases es.len() - i,
    {
        assert(ev.take(i + 1).drop_last() =~= ev.take(i as int));
        assert(ev.take(i + 1).last() == (es@[i as int].0@, es@[i as int].1@));
        let h = strip_tags(es[i].1.as_str());
        if chars_of(h.as_str()).len() > 0 && !crate::text::is_taken(hs, h.as_str()) {
            let ghost before = hs@;
            hs.push(h);
            assert(str_views(hs@) =~= str_views(before).push(h@));
        }
        i = i + 1;
    }
    assert(ev.take(es.len() as int) =~= ev);
}

/// A page as text: its title, description, headings, words and links.
/// Not an HTML parser: a malformed page yields fewer words, not an error.
pub fn html_to_text(html: &str, url: &str) -> (r: SiteText)
    ensures
        r@ == html_to_text_spec(html@, url@),
{
    let c1 = drop_blocks(html, "script");
    let c2 = drop_blocks(c1.as_str(), "style");
    let c3 = drop_blocks(c2.as_str(), "noscript");
    let c4 = drop_blocks(c3.as_str(), "svg");
    let cleaned = drop_blocks(c4.as_str(), "template");
    proof {
        reveal_strlit("title");
        reveal_strlit("h1");
        reveal_strlit("h2");
        reveal_strlit("h3");
        reveal_strlit("a");
        reveal_strlit("href");
    }
    let cv = chars_of(cleaned.as_str());
    let low = lower_vec(&cv);
    let ts = elements(cleaned.as_str(), "title");
    let title = if ts.len() > 0 {
        strip_tags(ts[0].1.as_str())
    } else {
        String::new()
    };
    assert(title@ == title_spec(cleaned@));
    let meta = lit_vec("<meta");
    let gt = lit_vec(">");
    let mut description = String::new();
    let mut i: usize = 0;
    let mut stop = false;
    while i <= cv.len() && !stop
        invariant
            i <= cv.len() + 1,
            cv@ == cleaned@,
            low@ == lower(cleaned@),
            low@.len() == cv@.len(),
            meta@ == "<meta"@,
            gt@ == ">"@,
            stop ==> description@ == desc_from(cv@, low@, 0, seq![]),
            !stop ==> i <= cv.len() && desc_from(cv@, low@, i as int, description@) == desc_from(
                cv@,
                low@,
                0,
                seq![],
            ),
        decreases cv.len() + 1 - i + (if stop {
            0int
        } else {
            1int
        }),
    {
        match find_exec(&low, &meta, i) {
            None => {
                stop = true;
            },
            Some(s) => match find_exec(&low, &gt, s) {
                None => {
                    stop = true;
                },
                Some(e) => {
                    proof {
                        reveal_strlit(">");
                        reveal_strlit("<meta");
                        reveal_strlit("name");
                        reveal_strlit("property");
                        reveal_strlit("content");
                    }
                    let tag = crate::text::from_sub(&cv, s, e + 1);
                    let name_v = attr(tag.as_str(), "name");
                    let key_raw = match name_v {
                        Some(v) => v,
                        None => match attr(tag.as_str(), "property") {
                            Some(v) => v,
                            None => String::new(),
                        },
                    };
                    let key = crate::text::lower_str(key_raw.as_str());
                    assert(key@ == meta_key(tag@));
                    if (crate::text::str_eq(key.as_str(), "description") || crate::text::str_eq(
                        key.as_str(),
                        "og:description",
                    )) && chars_of(description.as_str()).len() == 0 {
                        let content = match attr(tag.as_str(), "content") {
                            Some(v) => v,
                            None => String::new(),
                        };
                        description = crate::text::collapse(content.as_str());
                    }
                    i = e + 1;
                },
            },
        }
    }
    proof {
        lemma_desc_from(cv@, low@, 0, seq![]);
    }
    let mut headings: Vec<String> = Vec::new();
    assert(str_views(headings@) =~= Seq::<Seq<char>>::empty());
    push_headings(&mut headings, cleaned.as_str(), "h1");
    push_headings(&mut headings, cleaned.as_str(), "h2");
    push_headings(&mut headings, cleaned.as_str(), "h3");
    let anchors = elements(cleaned.as_str(), "a");
    let ghost av = pairs_view(anchors@);
    let mut links: Vec<SiteLink> = Vec::new();
    let mut k: usize = 0;
    while k < anchors.len()
        invariant
            k <= anchors.len(),
            av == pairs_view(anchors@),
            av == elements_spec(cleaned@, "a"@),
            links@.map_values(|l: SiteLink| (l.href@, l.text@)) == links_spec(url@, av.take(k as int)),
        decreases anchors.len() - k,
    {
        assert(av.take(k + 1).drop_last() =~= av.take(k as int));
        assert(av.take(k + 1).last() == (anchors@[k as int].0@, anchors@[k as int].1@));
        proof {
            reveal_strlit("href");
        }
        if let Some(href) = attr(anchors[k].0.as_str(), "href") {
            let text = strip_tags(anchors[k].1.as_str());
            if !crate::text::is_blank(href.as_str()) {
                let h = trim_str(href.as_str());
                let l = SiteLink { href: absolute(url, h.as_str()), text };
                let ghost before = links@;
                links.push(l);
                assert(links@.map_values(|l: SiteLink| (l.href@, l.text@)) =~= before.map_values(
                    |l: SiteLink| (l.href@, l.text@),
                ).push((l.href@, l.text@)));
            }
        }
        k = k + 1;
    }
    assert(av.take(anchors.len() as int) =~= av);
    let body_open = lit_vec("<body");
    let body = match find_exec(&low, &body_open, 0) {
        Some(b) => {
            let s = crate::text::from_sub(&cv, b, cv.len());
            assert(cv@.subrange(b as int, cv.len() as int) =~= cv@.skip(b as int));
            s
        },
        None => copy_str(cleaned.as_str()),
    };
    let text = strip_tags(body.as_str());
    SiteText { url: copy_str(url), title, description, headings, text, links }
}

/// The prompt body: every page read, marked, so the model can say where on
/// the site each line came from. Each page's text is cut at 12,000
/// characters.
pub open spec fn page_block(p: SiteTextV) -> Seq<char> {
    "# Page: "@ + p.url + "\n\n"@ + (if p.title.len() > 0 {
        "Title: "@ + p.title + "\n"@
    } else {
        seq![]
    }) + (if p.description.len() > 0 {
        "Description: "@ + p.description + "\n"@
    } else {
        seq![]
    }) + (if p.headings.len() > 0 {
        "Headings: "@ + join(p.headings, " | "@) + "\n"@
    } else {
        seq![]
    }) + "\n"@ + (if p.text.len() <= 12_000 {
        p.text
    } else {
        p.text.take(12_000)
    }) + "\n\n"@
}

pub open spec fn pages_view(v: Seq<SiteText>) -> Seq<SiteTextV> {
    v.map_values(|p: SiteText| p@)
}

pub open spec fn blocks(ps: Seq<SiteTextV>) -> Seq<char>
    decreases ps.len(),
{
    if ps.len() == 0 {
        seq![]
    } else {
        blocks(ps.drop_last()) + page_block(ps.last())
    }
}

pub open spec fn render_context_spec(name: Seq<char>, website: Seq<char>, ps: Seq<SiteTextV>) -> Seq<char> {
    "# The business\n\nName: "@ + name + "\nWebsite: "@ + website + "\n\n"@ + blocks(ps)
}

fn labelled(label: &str, v: &str) -> (r: String)
    ensures
        r@ == (if v@.len() > 0 {
            label@ + v@ + "\n"@
        } else {
            seq![]
        }),
{
    if chars_of(v).len() > 0 {
        let mut r = copy_str(label);
        push_str(&mut r, v);
        push_str(&mut r, "\n");
        r
    } else {
        String::new()
    }
}

fn headings_line(hs: &Vec<String>) -> (r: String)
    ensures
        r@ == (if hs@.len() > 0 {
            "Headings: "@ + join(str_views(hs@), " | "@) + "\n"@
        } else {
            seq![]
        }),
{
    if hs.len() > 0 {
        let mut r = copy_str("Headings: ");
        push_str(&mut r, crate::text::join_strings(hs, " | ").as_str());
        push_str(&mut r, "\n");
        r
    } else {
        String::new()
    }
}

fn cut_text(t: &str) -> (r: String)
    ensures
        r@ == (if t@.len() <= 12_000 {
            t@
        } else {
            t@.take(12_000)
        }),
{
    let v = chars_of(t);
    if v.len() <= 12_000 {
        copy_str(t)
    } else {
        let r = crate::text::from_sub(&v, 0, 12_000);
        assert(v@.subrange(0, 12_000) =~= t@.take(12_000));
        r
    }
}

#[verifier::rlimit(40)]
fn push_page(s: &mut String, p: &SiteText)
    ensures
        final(s)@ == old(s)@ + page_block(p@),
{
    let ti = labelled("Title: ", p.title.as_str());
    let de = labelled("Description: ", p.description.as_str());
    let he = headings_line(&p.headings);
    let tx = cut_text(p.text.as_str());
    let mut block = copy_str("# Page: ");
    push_str(&mut block, p.url.as_str());
    push_str(&mut block, "\n\n");
    push_str(&mut block, ti.as_str());
    push_str(&mut block, de.as_str());
    push_str(&mut block, he.as_str());
    push_str(&mut block, "\n");
    push_str(&mut block, tx.as_str());
    push_str(&mut block, "\n\n");
    assert(block@ =~= page_block(p@));
    push_str(s, block.as_str());
}

/// The prompt body: the business, then every page read.
pub fn render_context(name: &str, website: &str, pages: &[SiteText]) -> (r: String)
    ensures
        r@ == render_context_spec(name@, website@, pages_view(pages@)),
{
    let mut s = copy_str("# The business\n\nName: ");
    push_str(&mut s, name);
    push_str(&mut s, "\nWebsite: ");
    push_str(&mut s, website);
    push_str(&mut s, "\n\n");
    let ghost head = s@;
    let ghost pv = pages_view(pages@);
    let mut i: usize = 0;
    while i < pages.len()
        invariant
            i <= pages.len(),
            pv == pages_view(pages@),
            s@ == head + blocks(pv.take(i as int)),
        decreases pages.len() - i,
    {
        assert(pv.take(i + 1).drop_last() =~= pv.take(i as int));
        assert(pv.take(i + 1).last() == pages@[i as int]@);
        push_page(&mut s, &pages[i]);
        i = i + 1;
    }
    assert(pv.take(pages.len() as int) =~= pv);
    s
}

pub open spec fn page_words(p: SiteTextV) -> Seq<char> {
    p.title + " "@ + p.description + " "@ + join(p.headings, " "@) + " "@ + p.text
}

/// Everything the site says, as one string, for checking quotes against.
pub fn all_text(pages: &[SiteText]) -> (r: String)
    ensures
        r@ == join(pages_view(pages@).map_values(|p: SiteTextV| page_words(p)), " "@),
{
    let ghost pv = pages_view(pages@);
    let mut parts: Vec<String> = Vec::new();
    let mut i: usize = 0;
    while i < pages.len()
        invariant
            i <= pages.len(),
            pv == pages_view(pages@),
            str_views(parts@) == pv.take(i as int).map_values(|p: SiteTextV| page_words(p)),
        decreases pages.len() - i,
    {
        let p = &pages[i];
        let mut w = copy_str(p.title.as_str());
        push_str(&mut w, " ");
        push_str(&mut w, p.description.as_str());
        push_str(&mut w, " ");
        push_str(&mut w, crate::text::join_strings(&p.headings, " ").as_str());
        push_str(&mut w, " ");
        push_str(&mut w, p.text.as_str());
        let ghost before = parts@;
        parts.push(w);
        i = i + 1;
        assert(str_views(parts@) =~= str_views(before).push(w@));
        assert(pv.take(i as int).map_values(|p: SiteTextV| page_words(p)) =~= pv.take(i - 1).map_values(
            |p: SiteTextV| page_words(p),
        ).push(page_words(pv[i - 1])));
    }
    assert(pv.take(pages.len() as int) =~= pv);
    crate::text::join_strings(&parts, " ")
}

// ---------------------------------------------------------------------------
// Reading a reply
// ---------------------------------------------------------------------------

proof fn lemma_candidates_append(a: Seq<Seq<char>>, b: Seq<Seq<char>>)
    ensures
        candidates(a + b) == candidates(a) + candidates(b),
    decreases b.len(),
{
    if b.len() == 0 {
        assert(a + b =~= a);
        assert(candidates(a) + candidates(b) =~= candidates(a));
    } else {
        assert((a + b).drop_last() =~= a + b.drop_last());
        assert((a + b).last() == b.last());
        lemma_candidates_append(a, b.drop_last());
        match candidate(b.last()) {
            Some(l) => {
                assert(candidates(a) + candidates(b) =~= (candidates(a) + candidates(b.drop_last())).push(l));
            },
            None => {},
        }
    }
}

fn strip_commas_end_exec(v: &Vec<char>) -> (r: Vec<char>)
    ensures
        r@ == strip_commas_end(v@),
{
    let mut e = v.len();
    assert(v@.take(e as int) =~= v@);
    while e > 0 && v[e - 1] == ','
        invariant
            e <= v.len(),
            strip_commas_end(v@) == strip_commas_end(v@.take(e as int)),
        decreases e,
    {
        assert(v@.take(e as int).drop_last() =~= v@.take(e - 1));
        e = e - 1;
    }
    let r = crate::text::sub_vec(v, 0, e);
    assert(r@ =~= v@.take(e as int));
    r
}

pub(crate) fn strip_quotes_exec(v: &Vec<char>) -> (r: Vec<char>)
    ensures
        r@ == strip_quotes(v@),
{
    let mut a: usize = 0;
    assert(v@.skip(0) =~= v@);
    while a < v.len() && v[a] == '"'
        invariant
            a <= v.len(),
            strip_quotes_start(v@) == strip_quotes_start(v@.skip(a as int)),
        decreases v.len() - a,
    {
        assert(v@.skip(a as int).drop_first() =~= v@.skip(a + 1));
        a = a + 1;
    }
    let ghost t = v@.skip(a as int);
    assert(strip_quotes_start(v@) == t);
    let mut e = v.len();
    assert(t =~= v@.subrange(a as int, e as int));
    while e > a && v[e - 1] == '"'
        invariant
            a <= e <= v.len(),
            t == v@.skip(a as int),
            strip_quotes_end(t) == strip_quotes_end(v@.subrange(a as int, e as int)),
        decreases e,
    {
        assert(v@.subrange(a as int, e as int).drop_last() =~= v@.subrange(a as int, e - 1));
        e = e - 1;
    }
    crate::text::sub_vec(v, a, e)
}

/// The lines of a reply that can hold a suggestion, in order: each trimmed,
/// stripped of trailing commas, and braced. The JSON library reads each
/// into a `SiteLine` for `parse_site_lines`.
pub fn site_line_candidates(reply: &str) -> (r: Vec<String>)
    ensures
        str_views(r@) == candidates(crate::provider::lines_from(reply@, 0)),
{
    let v = chars_of(reply);
    let mut out: Vec<String> = Vec::new();
    let mut start: usize = 0;
    assert(str_views(out@) + candidates(crate::provider::lines_from(v@, 0)) =~= candidates(
        crate::provider::lines_from(v@, 0),
    ));
    while start < v.len()
        invariant
            start <= v.len(),
            v@ == reply@,
            candidates(crate::provider::lines_from(v@, 0)) == str_views(out@) + candidates(
                crate::provider::lines_from(v@, start as int),
            ),
        decreases v.len() - start,
    {
        let (e, next) = crate::provider::next_line(&v, start);
        let ghost ls = crate::provider::lines_from(v@, start as int);
        proof {
            crate::provider::lemma_nl_from(v@, start as int, e as int);
            assert(ls[0] == crate::provider::drop_cr(v@.subrange(start as int, e as int)));
            assert(ls =~= seq![ls[0]] + crate::provider::lines_from(v@, next as int));
            lemma_candidates_append(seq![ls[0]], crate::provider::lines_from(v@, next as int));
            assert(seq![ls[0]].drop_last() =~= Seq::<Seq<char>>::empty());
        }
        let line = crate::provider::drop_cr_exec(&v, start, e);
        let t = crate::text::trim_vec(&line);
        let l = strip_commas_end_exec(&t);
        assert(line@ == ls[0]);
        assert(seq![ls[0]].last() == ls[0]);
        assert(candidates(Seq::<Seq<char>>::empty()) =~= Seq::<Seq<char>>::empty());
        if l.len() > 0 && l[0] == '{' && l[l.len() - 1] == '}' {
            let ghost before = str_views(out@);
            let c = from_chars(&l);
            out.push(c);
            assert(str_views(out@) =~= before.push(l@));
            assert(candidates(seq![ls[0]]) == seq![l@]);
            assert(str_views(out@) + candidates(crate::provider::lines_from(v@, next as int)) =~= before
                + seq![l@] + candidates(crate::provider::lines_from(v@, next as int)));
        } else {
            assert(candidates(seq![ls[0]]) =~= Seq::<Seq<char>>::empty());
            assert(candidates(seq![ls[0]]) + candidates(crate::provider::lines_from(v@, next as int)) =~= candidates(crate::provider::lines_from(v@, next as int)));
        }
        start = next;
    }
    proof {
        assert(crate::provider::lines_from(v@, start as int) =~= Seq::<Seq<char>>::empty());
        assert(str_views(out@) + Seq::<Seq<char>>::empty() =~= str_views(out@));
    }
    out
}

pub open spec fn read_view(v: Seq<Option<SiteLine>>) -> Seq<Option<SiteLineV>> {
    v.map_values(|o: Option<SiteLine>| match o {
        Some(l) => Some(l@),
        None => None,
    })
}

fn tidy_exec(s: &SiteLine, site: &str) -> (r: Option<SiteLine>)
    ensures
        match r {
            Some(t) => tidy(s@, site@) == Some(t@),
            None => tidy(s@, site@) is None,
        },
{
    let field = crate::text::lower_str(trim_str(s.field.as_str()).as_str());
    let t1 = chars_of(s.text.as_str());
    let t2 = crate::text::trim_vec(&t1);
    let t3 = strip_quotes_exec(&t2);
    let t4 = crate::text::trim_vec(&t3);
    let text = from_chars(&t4);
    let k = crate::text::lower_str(trim_str(s.kind.as_str()).as_str());
    let f = field.as_str();
    let known = crate::text::str_eq(f, "what") || crate::text::str_eq(f, "serves") || crate::text::str_eq(f, "industry")
        || crate::text::str_eq(f, "where") || crate::text::str_eq(f, "product") || crate::text::str_eq(f, "service");
    if !known || t4.len() == 0 {
        return None;
    }
    let kind = if crate::text::str_eq(k.as_str(), "quote") {
        if contains_words(site, text.as_str()) {
            copy_str("quote")
        } else {
            copy_str("suggestion")
        }
    } else if crate::text::str_eq(k.as_str(), "suggestion") {
        copy_str("suggestion")
    } else {
        copy_str("guess")
    };
    proof {
        reveal_strlit("quote");
        reveal_strlit("suggestion");
        reveal_strlit("guess");
        assert("suggestion"@.len() != "quote"@.len());
        assert("guess"@[0] != "quote"@[0]);
    }
    assert(text@ == trim(strip_quotes(trim(s@.text))));
    Some(SiteLine { field, text, kind, source: trim_str(s.source.as_str()) })
}

/// The suggestions in a reply, checked and tidied. `read` holds, for each
/// of the reply's candidate lines in order (`site_line_candidates`), what
/// the JSON library read it as, or nothing where it did not read.
///
/// A line claiming to quote the site that is not on it becomes a
/// suggestion: the text may still be right, but it is not the site's words
/// and the screen must not say it is.
pub fn parse_site_lines(read: &Vec<Option<SiteLine>>, site_text: &str) -> (r: Vec<SiteLine>)
    ensures
        lines_view(r@) == site_lines(read_view(read@), site_text@),
{
    let ghost rv = read_view(read@);
    let mut out: Vec<SiteLine> = Vec::new();
    let mut i: usize = 0;
    assert(lines_view(out@) =~= site_lines(rv.take(0), site_text@));
    while i < read.len()
        invariant
            i <= read.len(),
            rv == read_view(read@),
            lines_view(out@) == site_lines(rv.take(i as int), site_text@),
        decreases read.len() - i,
    {
        assert(rv.take(i + 1).drop_last() =~= rv.take(i as int));
        assert(rv.take(i + 1).last() == rv[i as int]);
        match &read[i] {
            Some(s) => {
                match tidy_exec(s, site_text) {
                    Some(t) => {
                        let ghost ov = lines_view(out@);
                        let mut dup = false;
                        let mut k: usize = 0;
                        while k < out.len()
                            invariant
                                k <= out.len(),
                                ov == lines_view(out@),
                                dup == exists|q: int| 0 <= q < k && ov[q].field == t@.field && crate::text::eq_ci(ov[q].text, t@.text),
                            decreases out.len() - k,
                        {
                            assert(ov[k as int] == out@[k as int]@);
                            if crate::text::str_eq(out[k].field.as_str(), t.field.as_str())
                                && crate::text::eq_ci_str(out[k].text.as_str(), t.text.as_str()) {
                                dup = true;
                            }
                            k = k + 1;
                        }
                        if !dup {
                            let ghost tv = t@;
                            out.push(t);
                            assert(lines_view(out@) =~= ov.push(tv));
                        }
                    },
                    None => {},
                }
            },
            None => {},
        }
        i = i + 1;
    }
    assert(rv.take(read.len() as int) =~= rv);
    out
}

// ---------------------------------------------------------------------------
// More pages of the same site
// ---------------------------------------------------------------------------

/// The parts of a parsed address the link filter reads.
#[derive(Debug)]
pub struct UrlParts {
    pub scheme: String,
    /// Empty when the address has no host.
    pub host: String,
    pub path: String,
    /// The whole address, without its fragment, as text.
    pub bare: String,
}

pub ghost struct UrlPartsV {
    pub scheme: Seq<char>,
    pub host: Seq<char>,
    pub path: Seq<char>,
    pub bare: Seq<char>,
}

impl View for UrlParts {
    type V = UrlPartsV;

    open spec fn view(&self) -> UrlPartsV {
        UrlPartsV { scheme: self.scheme@, host: self.host@, path: self.path@, bare: self.bare@ }
    }
}

/// What `reqwest::Url` makes of a text: its scheme, host, path, and itself
/// printed without a fragment; `None` when it does not parse.
pub uninterp spec fn url_parts(s: Seq<char>) -> Option<UrlPartsV>;

/// `reqwest::Url::parse`, then its scheme, `host_str` (empty when absent),
/// path, and the address printed after `set_fragment(None)`. Claimed: the
/// result is the named reading of the text.
#[verifier::external_body]
fn parse_url(s: &str) -> (r: Option<UrlParts>)
    ensures
        match r {
            Some(u) => url_parts(s@) == Some(u@),
            None => url_parts(s@) is None,
        },
{
    match reqwest::Url::parse(s) {
        Ok(mut u) => {
            let scheme = u.scheme().to_string();
            let host = u.host_str().unwrap_or_default().to_string();
            let path = u.path().to_string();
            u.set_fragment(None);
            Some(UrlParts { scheme, host, path, bare: u.to_string() })
        },
        Err(_) => None,
    }
}

/// A host without its leading `www.`s.
pub open spec fn strip_www(h: Seq<char>) -> Seq<char>
    decreases h.len(),
{
    if h.len() >= 4 && h.take(4) == "www."@ {
        strip_www(h.skip(4))
    } else {
        h
    }
}

pub open spec fn is_file_path(p: Seq<char>) -> bool {
    let l = lower(p);
    crate::text::ends_with(l, ".pdf"@) || crate::text::ends_with(l, ".jpg"@) || crate::text::ends_with(l, ".jpeg"@)
        || crate::text::ends_with(l, ".png"@) || crate::text::ends_with(l, ".gif"@) || crate::text::ends_with(l, ".zip"@)
        || crate::text::ends_with(l, ".docx"@) || crate::text::ends_with(l, ".xlsx"@) || crate::text::ends_with(l, ".mp4"@)
}

/// A link worth reading after the first page: on the web, on the same site,
/// not a file, and not the page itself or the home page.
pub open spec fn worth_reading(u: UrlPartsV, base: UrlPartsV) -> bool {
    &&& (u.scheme == "http"@ || u.scheme == "https"@)
    &&& strip_www(u.host) == strip_www(base.host)
    &&& !is_file_path(u.path)
    &&& u.path != base.path
    &&& u.path != "/"@
}

/// The links gathered so far, and whether gathering has stopped: it stops
/// once a link worth reading leaves `max` or more gathered.
pub open spec fn gather(links: Seq<(Seq<char>, Seq<char>)>, base: UrlPartsV, max: usize) -> (Seq<Seq<char>>, bool)
    decreases links.len(),
{
    if links.len() == 0 {
        (seq![], false)
    } else {
        let st = gather(links.drop_last(), base, max);
        if st.1 {
            st
        } else {
            match url_parts(links.last().0) {
                Some(u) => if worth_reading(u, base) {
                    let out = if st.0.contains(u.bare) {
                        st.0
                    } else {
                        st.0.push(u.bare)
                    };
                    (out, out.len() >= max)
                } else {
                    st
                },
                None => st,
            }
        }
    }
}

pub open spec fn same_site_links_spec(t: SiteTextV, max: usize) -> Seq<Seq<char>> {
    match url_parts(t.url) {
        Some(base) => gather(t.links, base, max).0,
        None => seq![],
    }
}

fn strip_www_exec(h: &str) -> (r: Vec<char>)
    ensures
        r@ == strip_www(h@),
{
    let v = chars_of(h);
    let w = chars_of("www.");
    proof {
        reveal_strlit("www.");
    }
    let mut a: usize = 0;
    assert(v@.skip(0) =~= v@);
    while a < v.len() && v.len() - a >= 4 && crate::text::occurs_at_exec(&v, &w, a)
        invariant
            a <= v.len(),
            v@ == h@,
            w@ == "www."@,
            w@.len() == 4,
            strip_www(h@) == strip_www(v@.skip(a as int)),
        decreases v.len() - a,
    {
        assert(v@.subrange(a as int, a + 4) == w@);
        assert(v@.skip(a as int).take(4) =~= v@.subrange(a as int, a + 4));
        assert(v@.skip(a as int).skip(4) =~= v@.skip(a + 4));
        a = a + 4;
    }
    proof {
        if a < v.len() && v.len() - a >= 4 {
            assert(v@.skip(a as int).take(4) =~= v@.subrange(a as int, a + 4));
        }
    }
    crate::text::sub_vec(&v, a, v.len())
}

fn is_file_path_exec(p: &str) -> (r: bool)
    ensures
        r == is_file_path(p@),
{
    let l = crate::text::lower_str(p);
    let s = l.as_str();
    crate::text::ends_with_str(s, ".pdf") || crate::text::ends_with_str(s, ".jpg") || crate::text::ends_with_str(s, ".jpeg")
        || crate::text::ends_with_str(s, ".png") || crate::text::ends_with_str(s, ".gif") || crate::text::ends_with_str(s, ".zip")
        || crate::text::ends_with_str(s, ".docx") || crate::text::ends_with_str(s, ".xlsx") || crate::text::ends_with_str(s, ".mp4")
}

/// Pages on the same site worth reading after the first: navigation links,
/// not anchors, files or mail links, each once, gathering stopping once
/// `max` are in hand.
pub fn same_site_links(t: &SiteText, max: usize) -> (r: Vec<String>)
    ensures
        str_views(r@) == same_site_links_spec(t@, max),
{
    let mut out: Vec<String> = Vec::new();
    let base = match parse_url(t.url.as_str()) {
        Some(b) => b,
        None => {
            assert(str_views(out@) =~= Seq::<Seq<char>>::empty());
            return out;
        },
    };
    let host = strip_www_exec(base.host.as_str());
    let ghost lv = t@.links;
    let mut i: usize = 0;
    let mut stopped = false;
    assert(str_views(out@) =~= gather(lv.take(0), base@, max).0);
    while i < t.links.len()
        invariant
            i <= t.links.len(),
            lv == t@.links,
            lv.len() == t.links.len(),
            url_parts(t@.url) == Some(base@),
            host@ == strip_www(base@.host),
            (str_views(out@), stopped) == gather(lv.take(i as int), base@, max),
        decreases t.links.len() - i,
    {
        let ghost st = gather(lv.take(i as int), base@, max);
        assert(lv.take(i + 1).drop_last() =~= lv.take(i as int));
        assert(lv.take(i + 1).last() == lv[i as int]);
        assert(lv[i as int].0 == t.links@[i as int].href@);
        if !stopped {
            match parse_url(t.links[i].href.as_str()) {
                Some(u) => {
                    let web = crate::text::str_eq(u.scheme.as_str(), "http") || crate::text::str_eq(u.scheme.as_str(), "https");
                    let uh = strip_www_exec(u.host.as_str());
                    let same = crate::text::seq_eq(&uh, &host);
                    let worth = web && same && !is_file_path_exec(u.path.as_str())
                        && !crate::text::str_eq(u.path.as_str(), base.path.as_str())
                        && !crate::text::str_eq(u.path.as_str(), "/");
                    if worth {
                        let ghost before = str_views(out@);
                        let present = crate::text::is_taken(&out, u.bare.as_str());
                        if !present {
                            out.push(u.bare);
                            assert(str_views(out@) =~= before.push(u@.bare));
                        }
                        if out.len() >= max {
                            stopped = true;
                        }
                    }
                },
                None => {},
            }
        }
        i = i + 1;
    }
    assert(lv.take(t.links.len() as int) =~= lv);
    out
}

// ---------------------------------------------------------------------------
// What the scripted provider says about a site
// ---------------------------------------------------------------------------

/// A digit of lowercase hexadecimal, for `d` below 16.
pub open spec fn hex_digit(d: int) -> char {
    seq!['0', '1', '2', '3', '4', '5', '6', '7', '8', '9', 'a', 'b', 'c', 'd', 'e', 'f'][d]
}

/// How `serde_json` writes one character inside a string: a quote and a
/// backslash behind a backslash; the controls below U+0020 as `\b`, `\t`,
/// `\n`, `\f`, `\r`, or else `\u00` and two lowercase hex digits; any other
/// character as it is.
pub open spec fn json_escaped(c: char) -> Seq<char> {
    if c == '"' {
        seq!['\\', '"']
    } else if c == '\\' {
        seq!['\\', '\\']
    } else if c == '\u{8}' {
        seq!['\\', 'b']
    } else if c == '\t' {
        seq!['\\', 't']
    } else if c == '\n' {
        seq!['\\', 'n']
    } else if c == '\u{c}' {
        seq!['\\', 'f']
    } else if c == '\r' {
        seq!['\\', 'r']
    } else if ' ' > c {
        seq!['\\', 'u', '0', '0', hex_digit((c as int) / 16), hex_digit((c as int) % 16)]
    } else {
        seq![c]
    }
}

/// What `serde_json` prints for a string: the text between quotes, each
/// character written as `json_escaped` says.
pub open spec fn json_quoted(s: Seq<char>) -> Seq<char> {
    seq!['"'] + s.map_values(|c: char| json_escaped(c)).flatten() + seq!['"']
}

/// `serde_json::to_string` of a string, which cannot fail for one. Claimed:
/// the result is the quoting above.
#[verifier::external_body]
fn quote_json(s: &str) -> (r: String)
    ensures
        r@ == json_quoted(s@),
{
    serde_json::to_string(s).unwrap_or_default()
}

/// One suggestion as a line of JSON: an object of the four members, in the
/// order `serde_json` keeps an object's keys.
pub open spec fn record_line(field: Seq<char>, text: Seq<char>, kind: Seq<char>, source: Seq<char>) -> Seq<char> {
    "{\"field\":"@ + json_quoted(field) + ",\"kind\":"@ + json_quoted(kind) + ",\"source\":"@ + json_quoted(source)
        + ",\"text\":"@ + json_quoted(text) + "}"@
}

fn record_exec(field: &str, text: &str, kind: &str, source: &str) -> (r: String)
    ensures
        r@ == record_line(field@, text@, kind@, source@),
{
    let mut r = copy_str("{\"field\":");
    push_str(&mut r, quote_json(field).as_str());
    push_str(&mut r, ",\"kind\":");
    push_str(&mut r, quote_json(kind).as_str());
    push_str(&mut r, ",\"source\":");
    push_str(&mut r, quote_json(source).as_str());
    push_str(&mut r, ",\"text\":");
    push_str(&mut r, quote_json(text).as_str());
    push_str(&mut r, "}");
    r
}

/// The words that name an industry, and how it is written.
pub open spec fn industries_v() -> Seq<(Seq<char>, Seq<char>)> {
    seq![
        ("mining"@, "Mining"@),
        ("asset management"@, "Asset management"@),
        ("logistics"@, "Logistics"@),
        ("retail"@, "Retail"@),
        ("healthcare"@, "Healthcare"@),
        ("construction"@, "Construction"@),
        ("agriculture"@, "Agriculture"@),
        ("manufacturing"@, "Manufacturing"@),
        ("education"@, "Education"@),
        ("finance"@, "Finance"@),
        ("insurance"@, "Insurance"@),
        ("energy"@, "Energy"@),
        ("transport"@, "Transport"@),
        ("hospitality"@, "Hospitality"@),
        ("real estate"@, "Real estate"@),
        ("software"@, "Software"@),
        ("security"@, "Security"@),
        ("rfid"@, "RFID"@),
    ]
}

fn industries() -> (r: Vec<(&'static str, &'static str)>)
    ensures
        r@.map_values(|p: (&'static str, &'static str)| (p.0@, p.1@)) == industries_v(),
{
    let mut r: Vec<(&'static str, &'static str)> = Vec::new();
    r.push(("mining", "Mining"));
    r.push(("asset management", "Asset management"));
    r.push(("logistics", "Logistics"));
    r.push(("retail", "Retail"));
    r.push(("healthcare", "Healthcare"));
    r.push(("construction", "Construction"));
    r.push(("agriculture", "Agriculture"));
    r.push(("manufacturing", "Manufacturing"));
    r.push(("education", "Education"));
    r.push(("finance", "Finance"));
    r.push(("insurance", "Insurance"));
    r.push(("energy", "Energy"));
    r.push(("transport", "Transport"));
    r.push(("hospitality", "Hospitality"));
    r.push(("real estate", "Real estate"));
    r.push(("software", "Software"));
    r.push(("security", "Security"));
    r.push(("rfid", "RFID"));
    assert(r@.map_values(|p: (&'static str, &'static str)| (p.0@, p.1@)) =~= industries_v());
    r
}

/// The industries whose word is in the text, in table order.
pub open spec fn found_in(tab: Seq<(Seq<char>, Seq<char>)>, lower_ctx: Seq<char>) -> Seq<Seq<char>>
    decreases tab.len(),
{
    if tab.len() == 0 {
        seq![]
    } else {
        let rest = found_in(tab.drop_last(), lower_ctx);
        if crate::text::contains(lower_ctx, tab.last().0) {
            rest.push(tab.last().1)
        } else {
            rest
        }
    }
}

/// One line read for a title and a description: the first value of each,
/// trimmed, that is not empty.
pub open spec fn label_step(st: (Seq<char>, Seq<char>), l: Seq<char>) -> (Seq<char>, Seq<char>) {
    (
        if st.0.len() == 0 && crate::text::starts_with(l, "Title: "@) {
            trim(l.skip(7))
        } else {
            st.0
        },
        if st.1.len() == 0 && crate::text::starts_with(l, "Description: "@) {
            trim(l.skip(13))
        } else {
            st.1
        },
    )
}

pub open spec fn labels_from(st: (Seq<char>, Seq<char>), ls: Seq<Seq<char>>) -> (Seq<char>, Seq<char>)
    decreases ls.len(),
{
    if ls.len() == 0 {
        st
    } else {
        labels_from(label_step(st, ls[0]), ls.drop_first())
    }
}

/// The page's title and description, as the context states them.
pub open spec fn labels(ls: Seq<Seq<char>>) -> (Seq<char>, Seq<char>) {
    labels_from((seq![], seq![]), ls)
}

pub open spec fn is_title_sep(c: char) -> bool {
    c == '|' || c == '-' || c == '\u{2013}'
}

/// Where the first separator at or after `i` is, or the end.
pub open spec fn sep_from(s: Seq<char>, i: int) -> int
    decreases s.len() - i,
{
    if i < 0 || i >= s.len() {
        s.len() as int
    } else if is_title_sep(s[i]) {
        i
    } else {
        sep_from(s, i + 1)
    }
}

/// The parts of a title between separators, from `i`: always at least one.
pub open spec fn parts_from(s: Seq<char>, i: int) -> Seq<Seq<char>>
    decreases s.len() - i,
{
    if i < 0 || i > s.len() {
        seq![]
    } else {
        let e = sep_from(s, i);
        if e < s.len() && i <= e {
            seq![s.subrange(i, e)] + parts_from(s, e + 1)
        } else {
            seq![s.subrange(i, s.len() as int)]
        }
    }
}

pub open spec fn word_count(s: Seq<char>) -> nat {
    words_from(s, 0).len()
}

/// The part with the most words; of equals, the last.
pub open spec fn most_words(ps: Seq<Seq<char>>) -> Seq<char>
    decreases ps.len(),
{
    if ps.len() == 0 {
        seq![]
    } else if ps.len() == 1 {
        ps[0]
    } else {
        let b = most_words(ps.drop_last());
        if word_count(ps.last()) >= word_count(b) {
            ps.last()
        } else {
            b
        }
    }
}

/// What the business does, to the mock: the description when there is one;
/// else the wordiest part of the title, which usually reads
/// "NAME | What it does".
pub open spec fn mock_what(title: Seq<char>, desc: Seq<char>) -> Seq<char> {
    if desc.len() > 0 {
        desc
    } else {
        most_words(parts_from(title, 0).map_values(|p: Seq<char>| trim(p)))
    }
}

pub open spec fn quote_mark(s: Seq<char>) -> Seq<char> {
    "\u{201c}"@ + s + "\u{201d}"@
}

pub open spec fn non_rfid_two(found: Seq<Seq<char>>) -> Seq<Seq<char>>
    decreases found.len(),
{
    if found.len() == 0 {
        seq![]
    } else {
        let rest = non_rfid_two(found.drop_last());
        if found.last() != "RFID"@ && rest.len() < 2 {
            rest.push(found.last())
        } else {
            rest
        }
    }
}

/// The lines the mock returns for a site read: what the business does,
/// quoted from the page; each industry whose word is on it, as a
/// suggestion; and, when there are any, who it serves, up to two products
/// and a service, each marked as the mock's guess.
pub open spec fn mock_lines(context: Seq<char>) -> Seq<Seq<char>> {
    let lb = labels(crate::provider::lines_from(context, 0));
    let what = mock_what(lb.0, lb.1);
    let found = found_in(industries_v(), lower(context));
    (if what.len() > 0 {
        seq![record_line("what"@, what, "quote"@, if lb.1.len() == 0 { "the page title"@ } else { "the page description"@ })]
    } else {
        seq![]
    }) + found.map_values(|i: Seq<char>| record_line("industry"@, i, "suggestion"@, "the word "@ + quote_mark(i) + " on the site"@))
        + if found.len() > 0 {
        seq![record_line(
            "serves"@,
            "Businesses in "@ + lower(join(found, ", "@)) + " (guessed by the mock provider)"@,
            "guess"@,
            "the mock provider cannot read a site, only its words"@,
        )] + non_rfid_two(found).map_values(|i: Seq<char>| record_line(
            "product"@,
            "A "@ + lower(i) + " product (guessed by the mock provider)"@,
            "guess"@,
            quote_mark(i) + " on the site; no product is named"@,
        )) + seq![record_line(
            "service"@,
            "Installation and support (guessed by the mock provider)"@,
            "guess"@,
            "not stated on the site"@,
        )]
    } else {
        seq![]
    }
}

fn label_step_exec(title: &mut String, desc: &mut String, l: &Vec<char>)
    ensures
        (final(title)@, final(desc)@) == label_step((old(title)@, old(desc)@), l@),
{
    let t = chars_of("Title: ");
    let d = chars_of("Description: ");
    proof {
        reveal_strlit("Title: ");
        reveal_strlit("Description: ");
    }
    if title.as_str().is_empty() && crate::text::starts_with_vec(l, &t) {
        let rest = crate::text::sub_vec(l, 7, l.len());
        assert(rest@ =~= l@.skip(7));
        *title = from_chars(&crate::text::trim_vec(&rest));
    }
    if desc.as_str().is_empty() && crate::text::starts_with_vec(l, &d) {
        let rest = crate::text::sub_vec(l, 13, l.len());
        assert(rest@ =~= l@.skip(13));
        *desc = from_chars(&crate::text::trim_vec(&rest));
    }
}

fn labels_exec(context: &str) -> (r: (String, String))
    ensures
        (r.0@, r.1@) == labels(crate::provider::lines_from(context@, 0)),
{
    let v = chars_of(context);
    let mut title = String::new();
    let mut desc = String::new();
    let mut start: usize = 0;
    while start < v.len()
        invariant
            start <= v.len(),
            v@ == context@,
            labels_from((title@, desc@), crate::provider::lines_from(v@, start as int)) == labels(
                crate::provider::lines_from(v@, 0),
            ),
        decreases v.len() - start,
    {
        let (e, next) = crate::provider::next_line(&v, start);
        let ghost ls = crate::provider::lines_from(v@, start as int);
        proof {
            crate::provider::lemma_nl_from(v@, start as int, e as int);
            assert(ls[0] == crate::provider::drop_cr(v@.subrange(start as int, e as int)));
            assert(ls.drop_first() =~= crate::provider::lines_from(v@, next as int));
        }
        let line = crate::provider::drop_cr_exec(&v, start, e);
        label_step_exec(&mut title, &mut desc, &line);
        start = next;
    }
    assert(crate::provider::lines_from(v@, start as int) =~= Seq::<Seq<char>>::empty());
    (title, desc)
}

proof fn lemma_sep_from(s: Seq<char>, i: int, e: int)
    requires
        0 <= i <= e <= s.len(),
        forall|j: int| i <= j < e ==> !is_title_sep(s[j]),
        e < s.len() ==> is_title_sep(s[e]),
    ensures
        sep_from(s, i) == e,
    decreases e - i,
{
    if i < e {
        lemma_sep_from(s, i + 1, e);
    }
}

/// The title's parts, each trimmed.
fn title_parts(title: &str) -> (r: Vec<String>)
    ensures
        str_views(r@) == parts_from(title@, 0).map_values(|p: Seq<char>| trim(p)),
{
    let v = chars_of(title);
    let mut out: Vec<String> = Vec::new();
    let mut start: usize = 0;
    let ghost whole = parts_from(v@, 0).map_values(|p: Seq<char>| trim(p));
    assert(str_views(out@) + parts_from(v@, 0).map_values(|p: Seq<char>| trim(p)) =~= whole);
    loop
        invariant
            start <= v.len(),
            v@ == title@,
            whole == parts_from(v@, 0).map_values(|p: Seq<char>| trim(p)),
            str_views(out@) + parts_from(v@, start as int).map_values(|p: Seq<char>| trim(p)) == whole,
        decreases v.len() - start,
    {
        let mut e = start;
        while e < v.len() && !(v[e] == '|' || v[e] == '-' || v[e] == '\u{2013}')
            invariant
                start <= e <= v.len(),
                forall|j: int| start <= j < e ==> !is_title_sep(v@[j]),
            decreases v.len() - e,
        {
            e = e + 1;
        }
        proof {
            lemma_sep_from(v@, start as int, e as int);
        }
        let piece = crate::text::sub_vec(&v, start, e);
        let t = from_chars(&crate::text::trim_vec(&piece));
        let ghost before = str_views(out@);
        out.push(t);
        assert(str_views(out@) =~= before.push(trim(v@.subrange(start as int, e as int))));
        if e < v.len() {
            let ghost rest = parts_from(v@, e + 1);
            assert(parts_from(v@, start as int) == seq![v@.subrange(start as int, e as int)] + rest);
            assert((seq![v@.subrange(start as int, e as int)] + rest).map_values(|p: Seq<char>| trim(p)) =~= seq![trim(v@.subrange(start as int, e as int))] + rest.map_values(|p: Seq<char>| trim(p)));
            assert(str_views(out@) + rest.map_values(|p: Seq<char>| trim(p)) =~= before + (seq![trim(v@.subrange(start as int, e as int))] + rest.map_values(|p: Seq<char>| trim(p))));
            start = e + 1;
        } else {
            assert(parts_from(v@, start as int) == seq![v@.subrange(start as int, v.len() as int)]);
            assert(str_views(out@) =~= before + parts_from(v@, start as int).map_values(|p: Seq<char>| trim(p)));
            return out;
        }
    }
}

fn most_words_exec(ps: &Vec<String>) -> (r: String)
    ensures
        r@ == most_words(str_views(ps@)),
{
    let ghost pv = str_views(ps@);
    if ps.len() == 0 {
        return String::new();
    }
    let mut best: usize = 0;
    let mut best_n = split_words_len(ps[0].as_str());
    let mut i: usize = 1;
    assert(pv.take(1).drop_last() =~= Seq::<Seq<char>>::empty());
    assert(most_words(pv.take(1)) == pv[0]);
    while i < ps.len()
        invariant
            1 <= i <= ps.len(),
            pv == str_views(ps@),
            best < i,
            most_words(pv.take(i as int)) == pv[best as int],
            best_n == word_count(pv[best as int]),
        decreases ps.len() - i,
    {
        let n = split_words_len(ps[i].as_str());
        assert(pv.take(i + 1).drop_last() =~= pv.take(i as int));
        assert(pv.take(i + 1).last() == pv[i as int]);
        if n >= best_n {
            best = i;
            best_n = n;
        }
        i = i + 1;
    }
    assert(pv.take(ps.len() as int) =~= pv);
    copy_str(ps[best].as_str())
}

fn split_words_len(s: &str) -> (r: usize)
    ensures
        r == word_count(s@),
{
    let w = crate::text::split_words(s);
    assert(str_views(w@).len() == w@.len());
    w.len()
}

/// The scripted provider's reply to a site read: one JSON object per line.
/// It reads the pages it was sent, quotes only words that are on them, and
/// says in every line it could not quote that it is the mock guessing.
pub fn mock_reply(context: &str) -> (r: String)
    ensures
        r@ == join(mock_lines(context@), "\n"@),
{
    let (title, desc) = labels_exec(context);
    let what = if !desc.as_str().is_empty() {
        copy_str(desc.as_str())
    } else {
        let parts = title_parts(title.as_str());
        most_words_exec(&parts)
    };
    let mut lines: Vec<String> = Vec::new();
    if !what.as_str().is_empty() {
        let src = if desc.as_str().is_empty() {
            "the page title"
        } else {
            "the page description"
        };
        lines.push(record_exec("what", what.as_str(), "quote", src));
    }
    let ghost head = str_views(lines@);
    assert(head =~= if what@.len() > 0 {
        seq![record_line("what"@, what@, "quote"@, if desc@.len() == 0 { "the page title"@ } else { "the page description"@ })]
    } else {
        seq![]
    });
    let lower_ctx = crate::text::lower_str(context);
    let tab = industries();
    let ghost tv = industries_v();
    let mut found: Vec<String> = Vec::new();
    let mut i: usize = 0;
    while i < tab.len()
        invariant
            i <= tab.len(),
            tv == industries_v(),
            tab@.map_values(|p: (&'static str, &'static str)| (p.0@, p.1@)) == tv,
            lower_ctx@ == lower(context@),
            str_views(found@) == found_in(tv.take(i as int), lower_ctx@),
        decreases tab.len() - i,
    {
        let (k, v) = tab[i];
        assert(tv[i as int] == (k@, v@));
        assert(tv.take(i + 1).drop_last() =~= tv.take(i as int));
        assert(tv.take(i + 1).last() == tv[i as int]);
        if crate::text::contains_str(lower_ctx.as_str(), k) {
            let ghost before = str_views(found@);
            found.push(copy_str(v));
            assert(str_views(found@) =~= before.push(v@));
        }
        i = i + 1;
    }
    assert(tv.take(tab.len() as int) =~= tv);
    let ghost fv = str_views(found@);
    let mut j: usize = 0;
    while j < found.len()
        invariant
            j <= found.len(),
            fv == str_views(found@),
            str_views(lines@) == head + fv.take(j as int).map_values(|x: Seq<char>| record_line("industry"@, x, "suggestion"@, "the word "@ + quote_mark(x) + " on the site"@)),
        decreases found.len() - j,
    {
        let mut src = copy_str("the word ");
        push_str(&mut src, "\u{201c}");
        push_str(&mut src, found[j].as_str());
        push_str(&mut src, "\u{201d}");
        push_str(&mut src, " on the site");
        assert(src@ =~= "the word "@ + quote_mark(fv[j as int]) + " on the site"@);
        let ghost before = str_views(lines@);
        let line = record_exec("industry", found[j].as_str(), "suggestion", src.as_str());
        lines.push(line);
        j = j + 1;
        assert(str_views(lines@) =~= before.push(line@));
        assert(fv.take(j as int) =~= fv.take(j - 1).push(fv[j - 1]));
        assert(fv.take(j as int).map_values(|x: Seq<char>| record_line("industry"@, x, "suggestion"@, "the word "@ + quote_mark(x) + " on the site"@)) =~= fv.take(j - 1).map_values(|x: Seq<char>| record_line("industry"@, x, "suggestion"@, "the word "@ + quote_mark(x) + " on the site"@)).push(record_line("industry"@, fv[j - 1], "suggestion"@, "the word "@ + quote_mark(fv[j - 1]) + " on the site"@)));
    }
    assert(fv.take(found.len() as int) =~= fv);
    let ghost mid = str_views(lines@);
    if found.len() > 0 {
        let joined = crate::text::join_strings(&found, ", ");
        let mut serves = copy_str("Businesses in ");
        push_str(&mut serves, crate::text::lower_str(joined.as_str()).as_str());
        push_str(&mut serves, " (guessed by the mock provider)");
        lines.push(record_exec("serves", serves.as_str(), "guess", "the mock provider cannot read a site, only its words"));
        let ghost after_serves = str_views(lines@);
        let mut picked: Vec<String> = Vec::new();
        let mut k: usize = 0;
        while k < found.len()
            invariant
                k <= found.len(),
                fv == str_views(found@),
                str_views(picked@) == non_rfid_two(fv.take(k as int)),
            decreases found.len() - k,
        {
            assert(fv.take(k + 1).drop_last() =~= fv.take(k as int));
            assert(fv.take(k + 1).last() == fv[k as int]);
            if !crate::text::str_eq(found[k].as_str(), "RFID") && picked.len() < 2 {
                let ghost before = str_views(picked@);
                picked.push(copy_str(found[k].as_str()));
                assert(str_views(picked@) =~= before.push(fv[k as int]));
            }
            k = k + 1;
        }
        assert(fv.take(found.len() as int) =~= fv);
        let ghost pk = str_views(picked@);
        let mut q: usize = 0;
        while q < picked.len()
            invariant
                q <= picked.len(),
                pk == str_views(picked@),
                str_views(lines@) == after_serves + pk.take(q as int).map_values(|x: Seq<char>| record_line("product"@, "A "@ + lower(x) + " product (guessed by the mock provider)"@, "guess"@, quote_mark(x) + " on the site; no product is named"@)),
            decreases picked.len() - q,
        {
            let mut text = copy_str("A ");
            push_str(&mut text, crate::text::lower_str(picked[q].as_str()).as_str());
            push_str(&mut text, " product (guessed by the mock provider)");
            let mut src = copy_str("\u{201c}");
            push_str(&mut src, picked[q].as_str());
            push_str(&mut src, "\u{201d}");
            push_str(&mut src, " on the site; no product is named");
            assert(src@ =~= quote_mark(pk[q as int]) + " on the site; no product is named"@);
            let ghost before = str_views(lines@);
            let line = record_exec("product", text.as_str(), "guess", src.as_str());
            lines.push(line);
            q = q + 1;
            assert(str_views(lines@) =~= before.push(line@));
            assert(pk.take(q as int) =~= pk.take(q - 1).push(pk[q - 1]));
            assert(pk.take(q as int).map_values(|x: Seq<char>| record_line("product"@, "A "@ + lower(x) + " product (guessed by the mock provider)"@, "guess"@, quote_mark(x) + " on the site; no product is named"@)) =~= pk.take(q - 1).map_values(|x: Seq<char>| record_line("product"@, "A "@ + lower(x) + " product (guessed by the mock provider)"@, "guess"@, quote_mark(x) + " on the site; no product is named"@)).push(record_line("product"@, "A "@ + lower(pk[q - 1]) + " product (guessed by the mock provider)"@, "guess"@, quote_mark(pk[q - 1]) + " on the site; no product is named"@)));
        }
        assert(pk.take(picked.len() as int) =~= pk);
        let ghost before = str_views(lines@);
        let line = record_exec("service", "Installation and support (guessed by the mock provider)", "guess", "not stated on the site");
        lines.push(line);
        assert(str_views(lines@) =~= before.push(line@));
        proof {
            let c = seq![record_line(
                "serves"@,
                "Businesses in "@ + lower(join(fv, ", "@)) + " (guessed by the mock provider)"@,
                "guess"@,
                "the mock provider cannot read a site, only its words"@,
            )];
            let d = pk.map_values(|x: Seq<char>| record_line("product"@, "A "@ + lower(x) + " product (guessed by the mock provider)"@, "guess"@, quote_mark(x) + " on the site; no product is named"@));
            let e = seq![record_line(
                "service"@,
                "Installation and support (guessed by the mock provider)"@,
                "guess"@,
                "not stated on the site"@,
            )];
            assert(after_serves =~= mid + c);
            assert(str_views(lines@) =~= mid + (c + d + e));
        }
    } else {
        assert(str_views(lines@) =~= mid + Seq::<Seq<char>>::empty());
    }
    proof {
        let lb = labels(crate::provider::lines_from(context@, 0));
        assert(lb == (title@, desc@));
        assert(what@ == mock_what(lb.0, lb.1));
        assert(fv == found_in(industries_v(), lower(context@)));
    }
    assert(str_views(lines@) =~= mock_lines(context@));
    crate::text::join_strings(&lines, "\n")
}

} // verus!
