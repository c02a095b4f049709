//! `update`: reading the latest release from the release API's answer, and
//! the binary to download for a platform.
use vstd::prelude::*;

use crate::text::{has_infix, split_char, split_spec, trim, trim_spec, views};

verus! {

/// A line without its trailing `\r`, if any.
pub open spec fn strip_cr(l: Seq<char>) -> Seq<char> {
    if l.len() > 0 && l.last() == '\r' {
        l.drop_last()
    } else {
        l
    }
}

/// The lines of `s`, as `str::lines` gives them: split at `\n`, each
/// without a trailing `\r`, and no empty line after a final `\n`.
pub open spec fn lines_spec(s: Seq<char>) -> Seq<Seq<char>> {
    let parts = split_spec(s, '\n');
    let kept = if s.len() == 0 || s.last() == '\n' {
        parts.drop_last()
    } else {
        parts
    };
    kept.map_values(|l: Seq<char>| strip_cr(l))
}

/// `s` without the `"` and `,` characters at either end.
pub open spec fn strip_quotes_start(s: Seq<char>) -> Seq<char>
    decreases s.len(),
{
    if s.len() > 0 && (s[0] == '"' || s[0] == ',') {
        strip_quotes_start(s.drop_first())
    } else {
        s
    }
}

/// `s` without the `"` and `,` characters at its end.
pub open spec fn strip_quotes_end(s: Seq<char>) -> Seq<char>
    decreases s.len(),
{
    if s.len() > 0 && (s.last() == '"' || s.last() == ',') {
        strip_quotes_end(s.drop_last())
    } else {
        s
    }
}

/// The first of `lines[0..n]` that holds `"tag_name"`.
pub open spec fn first_tag_line(lines: Seq<Seq<char>>, n: int) -> Option<int>
    decreases n,
{
    if n <= 0 {
        None
    } else {
        match first_tag_line(lines, n - 1) {
            Some(i) => Some(i),
            None => if has_infix(lines[n - 1], "\"tag_name\""@) { Some(n - 1) } else { None },
        }
    }
}

/// The release tag in the answer of the release API: on the first line
/// that holds `"tag_name"`, the text after the first `:` (up to a next
/// one), trimmed of whitespace and then of `"` and `,` at both ends. None
/// when there is no such line or it has no `:`.
pub open spec fn latest_tag_text(body: Seq<char>) -> Option<Seq<char>> {
    let ls = lines_spec(body);
    match first_tag_line(ls, ls.len() as int) {
        Some(i) => {
            let pieces = split_spec(ls[i], ':');
            if pieces.len() >= 2 {
                Some(strip_quotes_end(strip_quotes_start(trim_spec(pieces[1]))))
            } else {
                None
            }
        },
        None => None,
    }
}

/// `s` without its leading `\r`-free line ending: the line as `lines` gives it.
fn strip_cr_exec(l: &str) -> (r: String)
    ensures
        r@ == strip_cr(l@),
{
    let x = crate::text::chars_of(l);
    if x.len() > 0 && x[x.len() - 1] == '\r' {
        let mut out: Vec<char> = Vec::new();
        let mut i: usize = 0;
        while i < x.len() - 1
            invariant
                x@ == l@,
                x@.len() > 0,
                i <= x@.len() - 1,
                out@ == x@.take(i as int),
            decreases x@.len() - i,
        {
            out.push(x[i]);
            assert(out@ =~= x@.take(i + 1));
            i += 1;
        }
        assert(out@ =~= l@.drop_last());
        crate::text::string_of(&out)
    } else {
        crate::text::owned(l)
    }
}

/// The lines of `s` (see [`lines_spec`]).
pub fn lines_of(s: &str) -> (r: Vec<String>)
    ensures
        views(r@) == lines_spec(s@),
{
    let parts = split_char(s, '\n');
    let x = crate::text::chars_of(s);
    let drop = x.len() == 0 || x[x.len() - 1] == '\n';
    let n = if drop && parts.len() > 0 {
        parts.len() - 1
    } else {
        parts.len()
    };
    proof {
        crate::text::lemma_split_nonempty(s@, '\n');
    }
    let mut out: Vec<String> = Vec::new();
    let mut i: usize = 0;
    while i < n
        invariant
            n <= parts@.len(),
            parts@.len() == split_spec(s@, '\n').len(),
            forall|i: int| 0 <= i < parts@.len() ==> #[trigger] parts@[i]@ == split_spec(s@, '\n')[i],
            i <= n,
            out@.len() == i,
            forall|j: int| 0 <= j < i ==> (#[trigger] out@[j])@ == strip_cr(parts@[j]@),
        decreases n - i,
    {
        out.push(strip_cr_exec(parts[i].as_str()));
        i += 1;
    }
    assert(views(out@) =~= lines_spec(s@));
    out
}

/// `s` trimmed of `"` and `,` at both ends.
fn strip_quotes(s: &str) -> (r: String)
    ensures
        r@ == strip_quotes_end(strip_quotes_start(s@)),
{
    let x = crate::text::chars_of(s);
    let mut a: usize = 0;
    assert(x@.skip(0) =~= x@);
    while a < x.len() && (x[a] == '"' || x[a] == ',')
        invariant
            x@ == s@,
            a <= x@.len(),
            strip_quotes_start(s@) == strip_quotes_start(x@.skip(a as int)),
        decreases x@.len() - a,
    {
        assert(x@.skip(a as int).drop_first() =~= x@.skip(a + 1));
        a += 1;
    }
    assert(strip_quotes_start(s@) == x@.skip(a as int));
    let mut b: usize = x.len();
    assert(x@.skip(a as int) =~= x@.subrange(a as int, b as int));
    while b > a && (x[b - 1] == '"' || x[b - 1] == ',')
        invariant
            x@ == s@,
            a <= b <= x@.len(),
            strip_quotes_end(strip_quotes_start(s@)) == strip_quotes_end(x@.subrange(a as int, b as int)),
        decreases b,
    {
        assert(x@.subrange(a as int, b as int).drop_last() =~= x@.subrange(a as int, b - 1));
        b -= 1;
    }
    let mut out: Vec<char> = Vec::new();
    let mut i: usize = a;
    while i < b
        invariant
            a <= i <= b <= x@.len(),
            out@ == x@.subrange(a as int, i as int),
        decreases b - i,
    {
        out.push(x[i]);
        assert(out@ =~= x@.subrange(a as int, i + 1));
        i += 1;
    }
    crate::text::string_of(&out)
}

/// The release tag in the answer `body` of the release API (see
/// [`latest_tag_text`]).
pub fn latest_tag(body: &str) -> (r: Option<String>)
    ensures
        match r {
            Some(t) => latest_tag_text(body@) == Some(t@),
            None => latest_tag_text(body@) is None,
        },
{
    let ls = lines_of(body);
    let ghost lv = views(ls@);
    let mut i: usize = 0;
    while i < ls.len()
        invariant
            lv == views(ls@),
            lv == lines_spec(body@),
            i <= ls@.len(),
            first_tag_line(lv, i as int) is None,
        decreases ls@.len() - i,
    {
        if crate::text::contains_str(ls[i].as_str(), "\"tag_name\"") {
            proof {
                lemma_first_tag_stays(lv, i as int + 1, lv.len() as int);
            }
            let pieces = split_char(ls[i].as_str(), ':');
            if pieces.len() >= 2 {
                let t = trim(pieces[1].as_str());
                return Some(strip_quotes(t.as_str()));
            }
            return None;
        }
        i += 1;
    }
    None
}

proof fn lemma_first_tag_stays(lines: Seq<Seq<char>>, a: int, b: int)
    requires
        0 <= a <= b,
        first_tag_line(lines, a) is Some,
    ensures
        first_tag_line(lines, b) == first_tag_line(lines, a),
    decreases b - a,
{
    if b > a {
        lemma_first_tag_stays(lines, a, b - 1);
    }
}

/// `s` without its leading `v`s.
pub open spec fn strip_v(s: Seq<char>) -> Seq<char>
    decreases s.len(),
{
    if s.len() > 0 && s[0] == 'v' {
        strip_v(s.drop_first())
    } else {
        s
    }
}

/// The version of a release tag: the tag without its leading `v`s.
pub fn version_of(tag: &str) -> (r: String)
    ensures
        r@ == strip_v(tag@),
{
    let x = crate::text::chars_of(tag);
    let mut a: usize = 0;
    assert(x@.skip(0) =~= x@);
    while a < x.len() && x[a] == 'v'
        invariant
            x@ == tag@,
            a <= x@.len(),
            strip_v(tag@) == strip_v(x@.skip(a as int)),
        decreases x@.len() - a,
    {
        assert(x@.skip(a as int).drop_first() =~= x@.skip(a + 1));
        a += 1;
    }
    let mut out: Vec<char> = Vec::new();
    let mut i: usize = a;
    while i < x.len()
        invariant
            a <= i <= x@.len(),
            out@ == x@.subrange(a as int, i as int),
        decreases x@.len() - i,
    {
        out.push(x[i]);
        assert(out@ =~= x@.subrange(a as int, i + 1));
        i += 1;
    }
    assert(out@ =~= x@.skip(a as int));
    crate::text::string_of(&out)
}

/// The release binary for an operating system and architecture: Apple on
/// `aarch64` or `x86_64`, Linux on `x86_64`; none for another platform.
pub open spec fn target_text(os: Seq<char>, arch: Seq<char>) -> Option<Seq<char>> {
    if os == "macos"@ && arch == "aarch64"@ {
        Some("aarch64-apple-darwin"@)
    } else if os == "macos"@ && arch == "x86_64"@ {
        Some("x86_64-apple-darwin"@)
    } else if os == "linux"@ && arch == "x86_64"@ {
        Some("x86_64-unknown-linux-gnu"@)
    } else {
        None
    }
}

/// The release binary for a platform (see [`target_text`]).
pub fn release_target(os: &str, arch: &str) -> (r: Option<String>)
    ensures
        match r {
            Some(t) => target_text(os@, arch@) == Some(t@),
            None => target_text(os@, arch@) is None,
        },
{
    let mac = crate::text::str_eq(os, "macos");
    let linux = crate::text::str_eq(os, "linux");
    let arm = crate::text::str_eq(arch, "aarch64");
    let x86 = crate::text::str_eq(arch, "x86_64");
    if mac && arm {
        Some(crate::text::owned("aarch64-apple-darwin"))
    } else if mac && x86 {
        Some(crate::text::owned("x86_64-apple-darwin"))
    } else if linux && x86 {
        Some(crate::text::owned("x86_64-unknown-linux-gnu"))
    } else {
        None
    }
}

} // verus!
