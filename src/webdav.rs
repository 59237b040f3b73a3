//! The WebDAV vocabulary: request method and depth, the multi-status
//! document as plain data, and its projection into remote file records.

use vstd::prelude::*;
use vstd::string::StringExecFns;

use crate::text::{chars_of, copy_opt_str, opt_view, string_of_chars};
use crate::url::{UrlParts, UrlView, url_join};

verus! {

/// WebDAV methods the client issues.
#[derive(Debug, Clone, Copy, PartialEq, Eq, Structural)]
pub enum WebDavMethod {
    PROPFIND,
}

impl WebDavMethod {
    /// The method name as sent on the wire.
    pub fn to_string(&self) -> (r: String)
        ensures
            r@ == seq!['P', 'R', 'O', 'P', 'F', 'I', 'N', 'D'],
    {
        proof {
            reveal_strlit("PROPFIND");
        }
        String::from_str("PROPFIND")
    }
}

/// Value of the `Depth` header of a `PROPFIND`.
#[derive(Debug, Clone, Copy, PartialEq, Eq, Structural)]
pub enum Depth {
    /// The resource only.
    Zero,
    /// The resource and its direct children.
    One,
    /// The resource and all its descendants.
    Infinity,
}

/// The header text of each depth.
pub open spec fn depth_text(d: Depth) -> Seq<char> {
    match d {
        Depth::Zero => seq!['0'],
        Depth::One => seq!['1'],
        Depth::Infinity => seq!['i', 'n', 'f', 'i', 'n', 'i', 't', 'y'],
    }
}

impl Depth {
    /// The header text: `0`, `1` or `infinity`.
    pub fn as_str(&self) -> (r: &'static str)
        ensures
            r@ == depth_text(*self),
    {
        match self {
            Depth::Zero => {
                proof {
                    reveal_strlit("0");
                }
                "0"
            },
            Depth::One => {
                proof {
                    reveal_strlit("1");
                }
                "1"
            },
            Depth::Infinity => {
                proof {
                    reveal_strlit("infinity");
                }
                "infinity"
            },
        }
    }
}

/// A time as seconds since the Unix epoch with the UTC offset it was given in.
#[derive(Debug, Clone, Copy, PartialEq, Eq, Structural)]
pub struct HttpDate {
    pub unix_seconds: i64,
    pub offset_seconds: i32,
}

/// What chrono makes of an RFC 2822 date: seconds since the epoch and offset.
pub uninterp spec fn rfc2822(s: Seq<char>) -> Option<(i64, i32)>;

/// Relies on `chrono::DateTime::parse_from_rfc2822`, read back with
/// `timestamp` and the offset's `local_minus_utc`.
#[verifier::external_body]
fn parse_rfc2822(s: &str) -> (r: Option<HttpDate>)
    ensures
        r matches Some(d) ==> rfc2822(s@) == Some((d.unix_seconds, d.offset_seconds)),
        r is None <==> rfc2822(s@) is None,
{
    chrono::DateTime::parse_from_rfc2822(s).ok().map(
        |d| HttpDate { unix_seconds: d.timestamp(), offset_seconds: d.offset().local_minus_utc() },
    )
}

/// Reads an optional `getlastmodified` value; a value that is not an RFC 2822
/// date is an error.
pub fn parse_http_date(raw: &Option<String>) -> (r: Result<Option<HttpDate>, String>)
    ensures
        raw is None ==> r == Ok::<Option<HttpDate>, String>(None),
        raw matches Some(s) ==> (r is Ok <==> rfc2822(s@) is Some),
        raw matches Some(s) ==> (r matches Ok(Some(d)) ==> rfc2822(s@) == Some(
            (d.unix_seconds, d.offset_seconds),
        )),
        raw is Some ==> !(r matches Ok(None)),
{
    match raw {
        None => Ok(None),
        Some(s) => match parse_rfc2822(s.as_str()) {
            Some(d) => Ok(Some(d)),
            None => Err(String::from_str("invalid RFC 2822 date")),
        },
    }
}

/// An empty element such as `<collection/>`.
#[derive(Debug, Clone, Copy, PartialEq, Eq, Structural)]
pub struct EmptyElement {}

/// `<resourcetype>`: a `<collection/>` child marks a directory.
#[derive(Debug, Clone, Copy, PartialEq, Eq, Structural)]
pub struct ResourceType {
    pub is_collection: Option<EmptyElement>,
}

/// `<privilege>`: which of the known privileges it names.
#[derive(Debug, Clone, Copy, PartialEq, Eq, Structural)]
pub struct Privilege {
    pub read: Option<EmptyElement>,
    pub write: Option<EmptyElement>,
    pub all: Option<EmptyElement>,
    pub read_acl: Option<EmptyElement>,
    pub write_acl: Option<EmptyElement>,
}

/// `<current-user-privilege-set>`.
#[derive(Debug, Clone)]
pub struct CurrentUserPrivilegeSet {
    pub privileges: Vec<Privilege>,
}

/// `<prop>`: the properties of one resource.
#[derive(Debug, Clone)]
pub struct Prop {
    pub resource_type: Option<ResourceType>,
    pub content_length: Option<u64>,
    pub last_modified: Option<HttpDate>,
    pub content_type: Option<String>,
    pub creation_date: Option<String>,
    pub etag: Option<String>,
    pub display_name: Option<String>,
    pub owner: Option<String>,
    pub current_user_privilege_set: Option<CurrentUserPrivilegeSet>,
}

/// `<propstat>`: properties with the status line that applies to them.
#[derive(Debug, Clone)]
pub struct PropStat {
    pub prop: Prop,
    pub status: String,
}

/// `<response>`: one resource.
#[derive(Debug, Clone)]
pub struct Response {
    pub href: String,
    pub propstats: Vec<PropStat>,
}

/// `<multistatus>`: the whole answer to a `PROPFIND`.
#[derive(Debug, Clone)]
pub struct MultiStatus {
    pub responses: Vec<Response>,
}

/// A remote file or directory as the client sees it.
#[derive(Debug, Clone)]
pub struct RemoteFileData {
    pub base_url: String,
    pub relative_root_path: String,
    pub absolute_path: String,
    pub name: String,
    pub is_dir: bool,
    pub size: Option<u64>,
    pub last_modified: Option<HttpDate>,
    pub mime: Option<String>,
    pub owner: Option<String>,
    pub etag: Option<String>,
    pub privileges: Vec<String>,
}

// ---------------------------------------------------------------- status line

/// Characters that separate the tokens of a status line: the Unicode
/// White_Space characters.
pub open spec fn is_space(c: char) -> bool {
    ('\u{9}' <= c && c <= '\u{D}') || c == ' ' || c == '\u{85}' || c == '\u{A0}' || c == '\u{1680}'
        || ('\u{2000}' <= c && c <= '\u{200A}') || c == '\u{2028}' || c == '\u{2029}' || c == '\u{202F}'
        || c == '\u{205F}' || c == '\u{3000}'
}

/// Whether `c` is a Unicode White_Space character.
pub fn is_space_char(c: char) -> (r: bool)
    ensures
        r == is_space(c),
{
    ('\u{9}' <= c && c <= '\u{D}') || c == ' ' || c == '\u{85}' || c == '\u{A0}' || c == '\u{1680}'
        || ('\u{2000}' <= c && c <= '\u{200A}') || c == '\u{2028}' || c == '\u{2029}' || c == '\u{202F}'
        || c == '\u{205F}' || c == '\u{3000}'
}

/// Whether a `PROPFIND` answer status is a success: any 2xx, which covers
/// 207 Multi-Status.
pub fn propfind_succeeded(status: u16) -> (r: bool)
    ensures
        r == (200 <= status <= 299 || status == 207),
{
    (200 <= status && status <= 299) || status == 207
}

pub open spec fn is_digit(c: char) -> bool {
    '0' <= c && c <= '9'
}

/// The value of a run of decimal digits.
pub open spec fn digits_value(t: Seq<char>) -> nat
    decreases t.len(),
{
    if t.len() == 0 {
        0
    } else {
        digits_value(t.drop_last()) * 10 + ((t.last() as nat) - 48) as nat
    }
}

/// A token without its leading `+`, if it has one.
pub open spec fn unsigned_part(t: Seq<char>) -> Seq<char> {
    if t.len() > 0 && t[0] == '+' {
        t.drop_first()
    } else {
        t
    }
}

/// Whether every character is a decimal digit.
pub open spec fn all_digits(d: Seq<char>) -> bool {
    forall|k: int| 0 <= k < d.len() ==> is_digit(#[trigger] d[k])
}

/// A token read as a `u16`: an optional `+`, then at least one digit and
/// nothing else, with a value that fits.
pub open spec fn parse_u16(t: Seq<char>) -> Option<u16> {
    let d = unsigned_part(t);
    if d.len() > 0 && all_digits(d) && digits_value(d) <= 65535 {
        Some(digits_value(d) as u16)
    } else {
        None
    }
}

/// `[i, j)` is a whitespace-separated token of `s`: a maximal run of
/// characters that are not whitespace.
pub open spec fn is_token(s: Seq<char>, i: int, j: int) -> bool {
    &&& 0 <= i < j <= s.len()
    &&& forall|k: int| i <= k < j ==> !is_space(#[trigger] s[k])
    &&& i == 0 || is_space(s[i - 1])
    &&& j == s.len() || is_space(s[j])
}

/// `[i, j)` is a token of `s` that reads as a `u16`.
pub open spec fn is_code_token(s: Seq<char>, i: int, j: int) -> bool {
    is_token(s, i, j) && parse_u16(s.subrange(i, j)) is Some
}

/// `[i, j)` is the first token of `s` that reads as a `u16`.
pub open spec fn is_first_code_token(s: Seq<char>, i: int, j: int) -> bool {
    &&& is_code_token(s, i, j)
    &&& forall|a: int, b: int| #[trigger] is_code_token(s, a, b) ==> i <= a
}

/// The status code of a status line such as `HTTP/1.1 200 OK`: the value of
/// its first whitespace-separated token that reads as a `u16`, if any.
pub open spec fn status_code(s: Seq<char>) -> Option<u16> {
    if exists|i: int, j: int| is_first_code_token(s, i, j) {
        let (i, j) = choose|i: int, j: int| is_first_code_token(s, i, j);
        parse_u16(s.subrange(i, j))
    } else {
        None
    }
}

/// A token is determined by where it starts.
proof fn lemma_token_end_unique(s: Seq<char>, i: int, j: int, j2: int)
    requires
        is_token(s, i, j),
        is_token(s, i, j2),
    ensures
        j == j2,
{
    if j < j2 {
        assert(!is_space(s[j]));
    } else if j2 < j {
        assert(!is_space(s[j2]));
    }
}

/// The first code token gives the status code.
proof fn lemma_first_code(s: Seq<char>, i: int, j: int)
    requires
        is_first_code_token(s, i, j),
    ensures
        status_code(s) == parse_u16(s.subrange(i, j)),
{
    let (i2, j2) = choose|i2: int, j2: int| is_first_code_token(s, i2, j2);
    assert(is_first_code_token(s, i2, j2));
    assert(is_code_token(s, i2, j2));
    assert(is_code_token(s, i, j));
    assert(i <= i2 && i2 <= i);
    lemma_token_end_unique(s, i, j, j2);
}

/// Whether a status line carries a 2xx code.
pub open spec fn is_success_line(s: Seq<char>) -> bool {
    match status_code(s) {
        Some(c) => 200 <= c && c <= 299,
        None => false,
    }
}

proof fn lemma_digits_grow(t: Seq<char>, c: char)
    requires
        is_digit(c),
    ensures
        digits_value(t.push(c)) == digits_value(t) * 10 + ((c as nat) - 48) as nat,
        digits_value(t.push(c)) >= digits_value(t),
{
    assert(t.push(c).drop_last() =~= t);
}

/// Reads `c[a..b]` as a `u16` token.
fn parse_u16_at(c: &Vec<char>, a: usize, b: usize) -> (r: Option<u16>)
    requires
        a <= b <= c@.len(),
    ensures
        r == parse_u16(c@.subrange(a as int, b as int)),
{
    let ghost t = c@.subrange(a as int, b as int);
    let mut lo = a;
    if lo < b && c[lo] == '+' {
        lo = lo + 1;
    }
    let ghost d = c@.subrange(lo as int, b as int);
    proof {
        if a < b && c@[a as int] == '+' {
            assert(t.drop_first() =~= d);
        } else {
            assert(t =~= d);
        }
        assert(t.len() > 0 && t[0] == '+' <==> (a < b && c@[a as int] == '+'));
    }
    if lo == b {
        return None;
    }
    let mut val: u64 = 0;
    let mut big = false;
    let mut k = lo;
    while k < b
        invariant
            a <= lo <= k <= b <= c@.len(),
            d == c@.subrange(lo as int, b as int),
            t == c@.subrange(a as int, b as int),
            (a < b && c@[a as int] == '+') ==> t.drop_first() == d,
            !(a < b && c@[a as int] == '+') ==> t == d,
            forall|j: int| lo <= j < k ==> is_digit(#[trigger] c@[j]),
            !big ==> val == digits_value(c@.subrange(lo as int, k as int)) && val <= 65535,
            big ==> digits_value(c@.subrange(lo as int, k as int)) > 65535,
        decreases b - k,
    {
        let ch = c[k];
        if !('0' <= ch && ch <= '9') {
            proof {
                assert(d[k - lo] == ch);
                assert(!is_digit(d[k - lo]));
                assert(!(forall|j: int| 0 <= j < d.len() ==> is_digit(#[trigger] d[j])));
                if a < b {
                    assert(t[0] == c@[a as int]);
                }
                assert(t.len() > 0 && t[0] == '+' <==> (a < b && c@[a as int] == '+'));
            }
            return None;
        }
        proof {
            lemma_digits_grow(c@.subrange(lo as int, k as int), ch);
            assert(c@.subrange(lo as int, k as int).push(ch) =~= c@.subrange(lo as int, k + 1));
        }
        if !big {
            let dv = (ch as u32 - 48) as u64;
            val = val * 10 + dv;
            if val > 65535 {
                big = true;
            }
        }
        k = k + 1;
    }
    proof {
        assert(c@.subrange(lo as int, b as int) =~= d);
        assert forall|j: int| 0 <= j < d.len() implies is_digit(#[trigger] d[j]) by {
            assert(d[j] == c@[lo + j]);
        }
        if a < b {
            assert(t[0] == c@[a as int]);
        }
        assert(unsigned_part(t) == d);
    }
    if big {
        None
    } else {
        Some(val as u16)
    }
}

/// The status code of a status line (see `status_code`).
pub fn status_code_of(line: &str) -> (r: Option<u16>)
    ensures
        r == status_code(line@),
{
    let c = chars_of(line);
    let n = c.len();
    let mut i: usize = 0;
    let mut in_token = false;
    let mut start: usize = 0;
    while i < n
        invariant
            n == c@.len(),
            c@ == line@,
            0 <= i <= n,
            in_token ==> start < i,
            in_token ==> forall|k: int| start <= k < i ==> !is_space(#[trigger] c@[k]),
            in_token ==> start == 0 || is_space(c@[start - 1]),
            !in_token ==> i == 0 || is_space(c@[i - 1]),
            forall|a: int, b: int|
                #[trigger] is_code_token(c@, a, b) ==> a >= (if in_token { start as int } else { i as int }),
        decreases n - i,
    {
        if is_space_char(c[i]) {
            if in_token {
                let v = parse_u16_at(&c, start, i);
                proof {
                    assert(is_token(c@, start as int, i as int));
                }
                if v.is_some() {
                    proof {
                        lemma_first_code(c@, start as int, i as int);
                    }
                    return v;
                }
                proof {
                    assert forall|a: int, b: int| #[trigger] is_code_token(c@, a, b) implies a >= i + 1 by {
                        if a == start {
                            lemma_token_end_unique(c@, a, b, i as int);
                        } else if a <= i {
                            assert(!is_space(c@[a - 1]));
                        }
                    }
                }
            } else {
                proof {
                    assert forall|a: int, b: int| #[trigger] is_code_token(c@, a, b) implies a >= i + 1 by {
                        if a == i {
                            assert(!is_space(c@[a]));
                        }
                    }
                }
            }
            in_token = false;
        } else if !in_token {
            in_token = true;
            start = i;
        }
        i = i + 1;
    }
    if in_token {
        let v = parse_u16_at(&c, start, n);
        proof {
            assert(is_token(c@, start as int, n as int));
            if v.is_some() {
                lemma_first_code(c@, start as int, n as int);
            } else {
                assert forall|a: int, b: int| !is_first_code_token(c@, a, b) by {
                    if is_code_token(c@, a, b) {
                        if a == start {
                            lemma_token_end_unique(c@, a, b, n as int);
                        } else {
                            assert(!is_space(c@[a - 1]));
                        }
                    }
                }
            }
        }
        v
    } else {
        proof {
            assert forall|a: int, b: int| !is_first_code_token(c@, a, b) by {
                if is_code_token(c@, a, b) {
                    assert(a >= n);
                }
            }
        }
        None
    }
}

/// Index of the first property set whose status line is 2xx, from `i` on.
pub open spec fn first_ok_from(ps: Seq<PropStat>, i: int) -> Option<int>
    decreases ps.len() - i,
{
    if i < 0 || i >= ps.len() {
        None
    } else if is_success_line(ps[i].status@) {
        Some(i)
    } else {
        first_ok_from(ps, i + 1)
    }
}

/// A found index lies in range and its status line is 2xx.
pub proof fn lemma_first_ok_in_range(ps: Seq<PropStat>, i: int)
    requires
        first_ok_from(ps, i) is Some,
    ensures
        i <= first_ok_from(ps, i)->Some_0 < ps.len(),
        is_success_line(ps[first_ok_from(ps, i)->Some_0].status@),
    decreases ps.len() - i,
{
    if i >= 0 && i < ps.len() && !is_success_line(ps[i].status@) {
        lemma_first_ok_in_range(ps, i + 1);
    }
}

/// Index of the first property set whose status line is 2xx.
pub fn take_ok_propstat(propstats: &Vec<PropStat>) -> (r: Option<usize>)
    ensures
        r matches Some(i) ==> first_ok_from(propstats@, 0) == Some(i as int),
        r is None <==> first_ok_from(propstats@, 0) is None,
{
    let n = propstats.len();
    let mut i: usize = 0;
    while i < n
        invariant
            n == propstats@.len(),
            0 <= i <= n,
            first_ok_from(propstats@, 0) == first_ok_from(propstats@, i as int),
        decreases n - i,
    {
        match status_code_of(propstats[i].status.as_str()) {
            Some(code) => {
                if 200 <= code && code <= 299 {
                    return Some(i);
                }
            },
            None => {},
        }
        i = i + 1;
    }
    None
}

// ---------------------------------------------------------------- privileges

/// The tokens one privilege record names, in the order read, write, all,
/// read_acl, write_acl.
pub open spec fn privilege_tokens(p: Privilege) -> Seq<Seq<char>> {
    (if p.read is Some { seq![seq!['r', 'e', 'a', 'd']] } else { Seq::empty() }) + (if p.write is Some {
        seq![seq!['w', 'r', 'i', 't', 'e']]
    } else {
        Seq::empty()
    }) + (if p.all is Some { seq![seq!['a', 'l', 'l']] } else { Seq::empty() }) + (if p.read_acl is Some {
        seq![seq!['r', 'e', 'a', 'd', '_', 'a', 'c', 'l']]
    } else {
        Seq::empty()
    }) + (if p.write_acl is Some {
        seq![seq!['w', 'r', 'i', 't', 'e', '_', 'a', 'c', 'l']]
    } else {
        Seq::empty()
    })
}

/// The tokens of all privilege records, record after record.
pub open spec fn all_privilege_tokens(ps: Seq<Privilege>) -> Seq<Seq<char>>
    decreases ps.len(),
{
    if ps.len() == 0 {
        Seq::empty()
    } else {
        all_privilege_tokens(ps.drop_last()) + privilege_tokens(ps.last())
    }
}

/// The views of a vector of strings.
pub open spec fn views(v: Seq<String>) -> Seq<Seq<char>> {
    v.map_values(|s: String| s@)
}

/// The privilege tokens of an optional privilege set (none when absent).
pub open spec fn spec_privileges(cups: Option<CurrentUserPrivilegeSet>) -> Seq<Seq<char>> {
    match cups {
        Some(set) => all_privilege_tokens(set.privileges@),
        None => Seq::empty(),
    }
}

fn push_token(out: &mut Vec<String>, s: &str)
    ensures
        views(final(out)@) == views(old(out)@).push(s@),
{
    let t = String::from_str(s);
    out.push(t);
    proof {
        assert(views(out@) =~= views(old(out)@).push(s@));
    }
}

/// Appends the tokens of one privilege record.
fn push_privilege(out: &mut Vec<String>, p: Privilege)
    ensures
    views(final(out)@) == views(old(out)@) + privilege_tokens(p),
{
    let ghost before = views(out@);
    proof {
        reveal_strlit("read");
        reveal_strlit("write");
        reveal_strlit("all");
        reveal_strlit("read_acl");
        reveal_strlit("write_acl");
        assert("read"@ =~= seq!['r', 'e', 'a', 'd']);
        assert("write"@ =~= seq!['w', 'r', 'i', 't', 'e']);
        assert("all"@ =~= seq!['a', 'l', 'l']);
        assert("read_acl"@ =~= seq!['r', 'e', 'a', 'd', '_', 'a', 'c', 'l']);
        assert("write_acl"@ =~= seq!['w', 'r', 'i', 't', 'e', '_', 'a', 'c', 'l']);
    }
    if p.read.is_some() {
        push_token(out, "read");
    }
    assert(views(out@) =~= before + (if p.read is Some { seq![seq!['r', 'e', 'a', 'd']] } else { Seq::empty() }));
    let ghost s1 = views(out@);
    if p.write.is_some() {
        push_token(out, "write");
    }
    assert(views(out@) =~= s1 + (if p.write is Some { seq![seq!['w', 'r', 'i', 't', 'e']] } else { Seq::empty() }));
    let ghost s2 = views(out@);
    if p.all.is_some() {
        push_token(out, "all");
    }
    assert(views(out@) =~= s2 + (if p.all is Some { seq![seq!['a', 'l', 'l']] } else { Seq::empty() }));
    let ghost s3 = views(out@);
    if p.read_acl.is_some() {
        push_token(out, "read_acl");
    }
    assert(views(out@) =~= s3 + (if p.read_acl is Some { seq![seq!['r', 'e', 'a', 'd', '_', 'a', 'c', 'l']] } else { Seq::empty() }));
    let ghost s4 = views(out@);
    if p.write_acl.is_some() {
        push_token(out, "write_acl");
    }
    assert(views(out@) =~= s4 + (if p.write_acl is Some { seq![seq!['w', 'r', 'i', 't', 'e', '_', 'a', 'c', 'l']] } else { Seq::empty() }));
    proof {
    assert(views(out@) =~= before + privilege_tokens(p));
    }
}

/// Flattens a privilege set into tokens from read, write, all, read_acl and
/// write_acl, in record order.
pub fn extract_privileges(cups: &Option<CurrentUserPrivilegeSet>) -> (r: Vec<String>)
    ensures
        views(r@) == spec_privileges(*cups),
{
    let mut out: Vec<String> = Vec::new();
    match cups {
        None => {
            proof {
                assert(views(out@) =~= Seq::<Seq<char>>::empty());
            }
        },
        Some(set) => {
            let n = set.privileges.len();
            let mut i: usize = 0;
            proof {
                assert(views(out@) =~= Seq::<Seq<char>>::empty());
                assert(set.privileges@.take(0) =~= Seq::<Privilege>::empty());
            }
            while i < n
                invariant
                    n == set.privileges@.len(),
                    0 <= i <= n,
                    views(out@) == all_privilege_tokens(set.privileges@.take(i as int)),
                decreases n - i,
            {
                let p = set.privileges[i];
                let ghost before = views(out@);
                push_privilege(&mut out, p);
                proof {
                    assert(set.privileges@.take(i + 1).drop_last() =~= set.privileges@.take(i as int));
                    assert(set.privileges@.take(i + 1).last() == p);
                    assert(views(out@) == before + privilege_tokens(p));
                }
                i = i + 1;
            }
            proof {
                assert(set.privileges@.take(n as int) =~= set.privileges@);
            }
        },
    }
    out
}

// ---------------------------------------------------------------- etag and name

/// A string without its leading whitespace.
pub open spec fn strip_leading(s: Seq<char>) -> Seq<char>
    decreases s.len(),
{
    if s.len() > 0 && is_space(s[0]) {
        strip_leading(s.drop_first())
    } else {
        s
    }
}

/// A string without its trailing whitespace.
pub open spec fn strip_trailing(s: Seq<char>) -> Seq<char>
    decreases s.len(),
{
    if s.len() > 0 && is_space(s.last()) {
        strip_trailing(s.drop_last())
    } else {
        s
    }
}

/// A string without leading or trailing (Unicode White_Space) whitespace.
pub open spec fn trimmed(s: Seq<char>) -> Seq<char> {
    strip_trailing(strip_leading(s))
}

/// Removes leading and trailing whitespace.
pub fn trim_text(s: &str) -> (r: String)
    ensures
        r@ == trimmed(s@),
{
    let c = chars_of(s);
    let n = c.len();
    let mut lo: usize = 0;
    proof {
        assert(c@.subrange(0, n as int) =~= c@);
    }
    while lo < n && is_space_char(c[lo])
        invariant
            n == c@.len(),
            c@ == s@,
            0 <= lo <= n,
            strip_leading(s@) == strip_leading(c@.subrange(lo as int, n as int)),
        decreases n - lo,
    {
        proof {
            assert(c@.subrange(lo as int, n as int).drop_first() =~= c@.subrange(lo + 1, n as int));
        }
        lo = lo + 1;
    }
    let mut hi: usize = n;
    proof {
        if lo < n {
            assert(!is_space(c@.subrange(lo as int, n as int)[0]));
        }
        assert(strip_leading(s@) == c@.subrange(lo as int, n as int));
    }
    while hi > lo && is_space_char(c[hi - 1])
        invariant
            n == c@.len(),
            c@ == s@,
            0 <= lo <= hi <= n,
            strip_leading(s@) == c@.subrange(lo as int, n as int),
            trimmed(s@) == strip_trailing(c@.subrange(lo as int, hi as int)),
        decreases hi,
    {
        proof {
            assert(c@.subrange(lo as int, hi as int).drop_last() =~= c@.subrange(lo as int, hi - 1));
        }
        hi = hi - 1;
    }
    let mut out: Vec<char> = Vec::new();
    let mut i: usize = lo;
    while i < hi
        invariant
            n == c@.len(),
            0 <= lo <= i <= hi <= n,
            out@ == c@.subrange(lo as int, i as int),
        decreases hi - i,
    {
        out.push(c[i]);
        i = i + 1;
        proof {
            assert(out@ =~= c@.subrange(lo as int, i as int));
        }
    }
    string_of_chars(&out)
}

/// A string without one pair of surrounding double quotes, if it has them.
pub open spec fn unquoted(t: Seq<char>) -> Seq<char> {
    if t.len() >= 2 && t[0] == '"' && t.last() == '"' {
        t.subrange(1, t.len() - 1)
    } else {
        t
    }
}

/// An ETag as the records keep it: trimmed, then unquoted.
pub open spec fn spec_etag(raw: Option<String>) -> Option<Seq<char>> {
    match raw {
        Some(s) => Some(unquoted(trimmed(s@))),
        None => None,
    }
}

/// Normalizes an ETag: trims whitespace, then removes one pair of
/// surrounding double quotes.
pub fn clean_etag(raw: &Option<String>) -> (r: Option<String>)
    ensures
        opt_view(r) == spec_etag(*raw),
{
    match raw {
        None => None,
        Some(s) => {
            let t = trim_text(s.as_str());
            let c = chars_of(t.as_str());
            let n = c.len();
            if n >= 2 && c[0] == '"' && c[n - 1] == '"' {
                let mut inner: Vec<char> = Vec::new();
                let mut i: usize = 1;
                while i < n - 1
                    invariant
                        c@ == t@,
                        n == c@.len(),
                        n >= 2,
                        1 <= i <= n - 1,
                        inner@ == c@.subrange(1, i as int),
                    decreases n - 1 - i,
                {
                    inner.push(c[i]);
                    i = i + 1;
                    proof {
                        assert(inner@ =~= c@.subrange(1, i as int));
                    }
                }
                Some(string_of_chars(&inner))
            } else {
                Some(t)
            }
        },
    }
}

/// What `percent_decode_str(..).decode_utf8_lossy()` makes of a string.
pub uninterp spec fn percent_decoded(s: Seq<char>) -> Seq<char>;

/// Relies on `percent_encoding::percent_decode_str` and `decode_utf8_lossy`:
/// `%XX` sequences become bytes, read as UTF-8 with lossy replacement.
#[verifier::external_body]
fn percent_decode(s: &str) -> (r: String)
    ensures
        r@ == percent_decoded(s@),
{
    percent_encoding::percent_decode_str(s).decode_utf8_lossy().to_string()
}

/// A path without its trailing slashes.
pub open spec fn strip_trailing_slashes(s: Seq<char>) -> Seq<char>
    decreases s.len(),
{
    if s.len() > 0 && s.last() == '/' {
        strip_trailing_slashes(s.drop_last())
    } else {
        s
    }
}

/// What follows the last `/` of a path (all of it when it has none).
pub open spec fn last_segment(s: Seq<char>) -> Seq<char>
    decreases s.len(),
{
    if s.len() == 0 || s.last() == '/' {
        Seq::empty()
    } else {
        last_segment(s.drop_last()).push(s.last())
    }
}

/// The name of a resource: its display name when the server gives one,
/// else the percent-decoded last segment of its `href`.
pub open spec fn spec_name(display_name: Option<String>, href: Seq<char>) -> Seq<char> {
    match display_name {
        Some(d) => d@,
        None => percent_decoded(last_segment(strip_trailing_slashes(href))),
    }
}

/// The last segment of `href` once its trailing slashes are removed.
fn href_tail(href: &str) -> (r: String)
    ensures
        r@ == last_segment(strip_trailing_slashes(href@)),
{
    let c = chars_of(href);
    let mut e: usize = c.len();
    proof {
        assert(c@.subrange(0, e as int) =~= c@);
    }
    while e > 0 && c[e - 1] == '/'
        invariant
            c@ == href@,
            0 <= e <= c@.len(),
            strip_trailing_slashes(href@) == strip_trailing_slashes(c@.subrange(0, e as int)),
        decreases e,
    {
        proof {
            assert(c@.subrange(0, e as int).drop_last() =~= c@.subrange(0, e - 1));
        }
        e = e - 1;
    }
    proof {
        if e == c@.len() {
            assert(c@.subrange(0, e as int) =~= c@);
        }
    }
    let mut b: usize = e;
    while b > 0 && c[b - 1] != '/'
        invariant
            c@ == href@,
            0 <= b <= e <= c@.len(),
            strip_trailing_slashes(href@) == c@.subrange(0, e as int),
            last_segment(c@.subrange(0, e as int)) == last_segment(c@.subrange(0, b as int)) + c@.subrange(
                b as int,
                e as int,
            ),
        decreases b,
    {
        proof {
            let pre = c@.subrange(0, b as int);
            assert(pre.drop_last() =~= c@.subrange(0, b - 1));
            assert(c@.subrange(b - 1, e as int) =~= seq![c@[b - 1]] + c@.subrange(b as int, e as int));
            assert(last_segment(pre) == last_segment(c@.subrange(0, b - 1)).push(c@[b - 1]));
            assert(last_segment(c@.subrange(0, b - 1)).push(c@[b - 1]) + c@.subrange(b as int, e as int)
                =~= last_segment(c@.subrange(0, b - 1)) + c@.subrange(b - 1, e as int));
        }
        b = b - 1;
    }
    proof {
        assert(last_segment(c@.subrange(0, b as int)) =~= Seq::<char>::empty());
        assert(last_segment(c@.subrange(0, e as int)) =~= c@.subrange(b as int, e as int));
    }
    let mut tail: Vec<char> = Vec::new();
    let mut i: usize = b;
    while i < e
        invariant
            c@ == href@,
            0 <= b <= i <= e <= c@.len(),
            tail@ == c@.subrange(b as int, i as int),
        decreases e - i,
    {
        tail.push(c[i]);
        i = i + 1;
        proof {
            assert(tail@ =~= c@.subrange(b as int, i as int));
        }
    }
    string_of_chars(&tail)
}

/// The name of a resource (see `spec_name`).
pub fn decode_name(display_name: &Option<String>, href: &str) -> (r: String)
    ensures
        r@ == spec_name(*display_name, href@),
{
    match display_name {
        Some(d) => d.clone(),
        None => {
            let tail = href_tail(href);
            percent_decode(tail.as_str())
        },
    }
}

// ---------------------------------------------------------------- projection

/// The responses a listing describes: all but the first when there are
/// several (the first is the queried collection itself).
pub open spec fn listed(rs: Seq<Response>) -> Seq<Response> {
    if rs.len() > 1 {
        rs.drop_first()
    } else {
        rs
    }
}

/// The listed responses that have a 2xx property set, in order.
pub open spec fn kept(rs: Seq<Response>) -> Seq<Response>
    decreases rs.len(),
{
    if rs.len() == 0 {
        Seq::empty()
    } else if first_ok_from(rs.last().propstats@, 0) is Some {
        kept(rs.drop_last()).push(rs.last())
    } else {
        kept(rs.drop_last())
    }
}

/// Whether a record is the projection of response `r` under the base URL.
pub open spec fn projects(d: RemoteFileData, base: UrlView, r: Response) -> bool {
    let i = first_ok_from(r.propstats@, 0)->Some_0;
    let prop = r.propstats@[i].prop;
    &&& d.base_url@ == base.0
    &&& d.relative_root_path@ == r.href@
    &&& d.absolute_path@ == match url_join(base.0, r.href@) {
        Some(j) => j.0,
        None => r.href@,
    }
    &&& d.name@ == spec_name(prop.display_name, r.href@)
    &&& d.is_dir == (prop.resource_type matches Some(rt) && rt.is_collection is Some)
    &&& d.size == prop.content_length
    &&& d.last_modified == prop.last_modified
    &&& opt_view(d.mime) == opt_view(prop.content_type)
    &&& opt_view(d.owner) == opt_view(prop.owner)
    &&& opt_view(d.etag) == spec_etag(prop.etag)
    &&& views(d.privileges@) == spec_privileges(prop.current_user_privilege_set)
}

/// A copy of a privilege set.
fn copy_privilege_set(cups: &Option<CurrentUserPrivilegeSet>) -> (r: Option<CurrentUserPrivilegeSet>)
    ensures
        spec_privileges(r) == spec_privileges(*cups),
{
    match cups {
        None => None,
        Some(set) => {
            let mut v: Vec<Privilege> = Vec::new();
            let mut i: usize = 0;
            while i < set.privileges.len()
                invariant
                    0 <= i <= set.privileges@.len(),
                    v@ == set.privileges@.subrange(0, i as int),
                decreases set.privileges@.len() - i,
            {
                v.push(set.privileges[i]);
                i = i + 1;
                proof {
                    assert(v@ =~= set.privileges@.subrange(0, i as int));
                }
            }
            proof {
                assert(v@ =~= set.privileges@);
            }
            Some(CurrentUserPrivilegeSet { privileges: v })
        },
    }
}

/// The record of one response whose 2xx property set is at `i`.
fn project_response(r: &Response, i: usize, base: &UrlParts) -> (d: RemoteFileData)
    requires
        first_ok_from(r.propstats@, 0) == Some(i as int),
    ensures
        projects(d, base.view(), *r),
{
    proof {
        lemma_first_ok_in_range(r.propstats@, 0);
    }
    let prop = &r.propstats[i].prop;
    let name = decode_name(&prop.display_name, r.href.as_str());
    let is_dir = match &prop.resource_type {
        Some(rt) => rt.is_collection.is_some(),
        None => false,
    };
    let absolute_path = match crate::url::join_href(base.href.as_str(), r.href.as_str()) {
        Some(j) => j,
        None => r.href.clone(),
    };
    RemoteFileData {
        base_url: base.href.clone(),
        relative_root_path: r.href.clone(),
        absolute_path,
        name,
        is_dir,
        size: prop.content_length,
        last_modified: prop.last_modified,
        mime: copy_opt_str(&prop.content_type),
        owner: copy_opt_str(&prop.owner),
        etag: clean_etag(&prop.etag),
        privileges: extract_privileges(&prop.current_user_privilege_set),
    }
}

impl MultiStatus {
    /// Projects the listing into records: drops the first response when there
    /// are several, skips responses without a 2xx property set, and reads the
    /// first 2xx property set of each other one.
    pub fn to_remote_file_data(self, base_url: &UrlParts) -> (r: Result<Vec<RemoteFileData>, String>)
        ensures
            r matches Ok(v) && v@.len() == kept(listed(self.responses@)).len() && forall|k: int|
                0 <= k < v@.len() ==> projects(#[trigger] v@[k], base_url.view(), kept(
                    listed(self.responses@),
                )[k]),
    {
        let rs = &self.responses;
        let n = rs.len();
        let first: usize = if n > 1 { 1 } else { 0 };
        let ghost ls = listed(rs@);
        proof {
            assert(ls =~= rs@.subrange(first as int, n as int));
            assert(rs@.subrange(first as int, first as int) =~= Seq::<Response>::empty());
        }
        let mut out: Vec<RemoteFileData> = Vec::new();
        let mut i: usize = first;
        while i < n
            invariant
                n == rs@.len(),
                first <= i <= n,
                ls == rs@.subrange(first as int, n as int),
                out@.len() == kept(rs@.subrange(first as int, i as int)).len(),
                forall|k: int|
                    0 <= k < out@.len() ==> projects(#[trigger] out@[k], base_url.view(), kept(
                        rs@.subrange(first as int, i as int),
                    )[k]),
            decreases n - i,
        {
            let r = &rs[i];
            let ghost before = kept(rs@.subrange(first as int, i as int));
            proof {
                assert(rs@.subrange(first as int, i + 1).drop_last() =~= rs@.subrange(first as int, i as int));
                assert(rs@.subrange(first as int, i + 1).last() == *r);
            }
            match take_ok_propstat(&r.propstats) {
                Some(j) => {
                    let d = project_response(r, j, base_url);
                    let ghost prev = out@;
                    out.push(d);
                    proof {
                        assert(kept(rs@.subrange(first as int, i + 1)) == before.push(*r));
                        assert forall|k: int| 0 <= k < out@.len() implies projects(
                            #[trigger] out@[k],
                            base_url.view(),
                            kept(rs@.subrange(first as int, i + 1))[k],
                        ) by {
                            if k < prev.len() {
                                assert(out@[k] == prev[k]);
                            }
                        }
                    }
                },
                None => {},
            }
            i = i + 1;
        }
        Ok(out)
    }
}

} // verus!
