//! Path resolution, containment and normalisation. Paths are handled as
//! plain strings with `/` separators; the host canonicalises real
//! filesystem paths before they reach the containment check.

use vstd::prelude::*;
use crate::strutil::{
    chars_vec, find_last_char, is_prefix_of, spec_last_char, starts_with_str, string_from_chars,
};
use crate::VaultError;

verus! {

/// A path that names its location from the filesystem root.
pub open spec fn spec_is_absolute(s: Seq<char>) -> bool {
    s.len() > 0 && s[0] == '/'
}

/// `base` and `name` joined with a single separator.
pub open spec fn spec_join(base: Seq<char>, name: Seq<char>) -> Seq<char> {
    if base.len() == 0 {
        name
    } else if base[base.len() - 1] == '/' {
        base + name
    } else {
        base + seq!['/'] + name
    }
}

/// `base` and `name` joined with a single separator.
pub fn join_path(base: &str, name: &str) -> (r: String)
    ensures
        r@ == spec_join(base@, name@),
{
    let bs = chars_vec(base);
    if bs.len() == 0 {
        let mut out: Vec<char> = chars_vec(name);
        assert(out@ =~= spec_join(base@, name@));
        return string_from_chars(&out);
    }
    let mut out = bs;
    if out[out.len() - 1] != '/' {
        out.push('/');
    }
    let ns = chars_vec(name);
    let mut k: usize = 0;
    let ghost head = out@;
    while k < ns.len()
        invariant
            k <= ns@.len(),
            out@ == head + ns@.subrange(0, k as int),
        decreases ns@.len() - k,
    {
        out.push(ns[k]);
        k = k + 1;
        assert(out@ =~= head + ns@.subrange(0, k as int));
    }
    proof {
        assert(ns@.subrange(0, ns@.len() as int) =~= ns@);
        if base@[base@.len() - 1] == '/' {
            assert(out@ =~= base@ + name@);
        } else {
            assert(out@ =~= base@ + seq!['/'] + name@);
        }
    }
    string_from_chars(&out)
}

/// Where a raw host-supplied path points: used verbatim when absolute,
/// otherwise joined under the vault root.
pub open spec fn spec_resolve(root: Seq<char>, raw: Seq<char>) -> Seq<char> {
    if spec_is_absolute(raw) {
        raw
    } else {
        spec_join(root, raw)
    }
}

/// Resolves a host-supplied path: absolute paths are used verbatim,
/// relative ones are joined under the root.
pub fn resolve_path(root: &str, raw: &str) -> (r: String)
    ensures
        r@ == spec_resolve(root@, raw@),
{
    let rs = chars_vec(raw);
    if rs.len() > 0 && rs[0] == '/' {
        raw.to_owned()
    } else {
        join_path(root, raw)
    }
}

/// Containment check over canonicalised paths: the path must start with
/// the root. Returns `InvalidPath` exactly when it does not.
pub fn ensure_within_root(path: &str, root: &str) -> (r: Result<(), VaultError>)
    ensures
        r is Ok <==> is_prefix_of(root@, path@),
        r is Err ==> r matches Err(VaultError::InvalidPath),
{
    if starts_with_str(path, root) {
        Ok(())
    } else {
        Err(VaultError::InvalidPath)
    }
}

/// Backslashes replaced by forward slashes.
pub open spec fn slashes_of(s: Seq<char>) -> Seq<char> {
    s.map_values(|c: char| if c == '\\' { '/' } else { c })
}

fn to_slashes(s: &Vec<char>) -> (r: Vec<char>)
    ensures
        r@ == slashes_of(s@),
{
    let mut out: Vec<char> = Vec::new();
    let mut i: usize = 0;
    while i < s.len()
        invariant
            i <= s@.len(),
            out@ == slashes_of(s@.subrange(0, i as int)),
        decreases s@.len() - i,
    {
        let c = s[i];
        if c == '\\' {
            out.push('/');
        } else {
            out.push(c);
        }
        i = i + 1;
        assert(out@ =~= slashes_of(s@.subrange(0, i as int)));
    }
    assert(s@.subrange(0, s@.len() as int) =~= s@);
    out
}

/// A `/vault/` component starts at position `i`, letters matched without
/// regard to ASCII case.
pub open spec fn vault_marker_at(s: Seq<char>, i: int) -> bool {
    &&& 0 <= i
    &&& i + 7 <= s.len()
    &&& s[i] == '/'
    &&& (s[i + 1] == 'v' || s[i + 1] == 'V')
    &&& (s[i + 2] == 'a' || s[i + 2] == 'A')
    &&& (s[i + 3] == 'u' || s[i + 3] == 'U')
    &&& (s[i + 4] == 'l' || s[i + 4] == 'L')
    &&& (s[i + 5] == 't' || s[i + 5] == 'T')
    &&& s[i + 6] == '/'
}

/// The largest `j <= i` at which a `/vault/` component starts, if any.
pub open spec fn find_marker_from(s: Seq<char>, i: int) -> Option<int>
    decreases i + 1 when i >= -1
{
    if i < 0 {
        None
    } else if vault_marker_at(s, i) {
        Some(i)
    } else {
        find_marker_from(s, i - 1)
    }
}

/// The start of the last `/vault/` component of `s`, if any.
pub open spec fn spec_last_marker(s: Seq<char>) -> Option<int> {
    if s.len() < 7 {
        None
    } else {
        find_marker_from(s, s.len() - 7)
    }
}

/// The leading drive letter removed, if one is present.
pub open spec fn strip_drive(s: Seq<char>) -> Seq<char> {
    if s.len() >= 2 && s[1] == ':' {
        s.subrange(2, s.len() as int)
    } else {
        s
    }
}

/// All leading slashes removed.
pub open spec fn strip_leading_slashes(s: Seq<char>) -> Seq<char>
    decreases s.len(),
{
    if s.len() > 0 && s[0] == '/' {
        strip_leading_slashes(s.drop_first())
    } else {
        s
    }
}

/// The unifier applied to an imported record's category path: separators
/// normalised, anything up to and including the last `/vault/` component
/// stripped, a leading drive letter stripped, leading slashes trimmed.
pub open spec fn spec_normalize_category(raw: Seq<char>) -> Seq<char> {
    let cleaned = slashes_of(raw);
    let tail = match spec_last_marker(cleaned) {
        Some(i) => cleaned.subrange(i + 7, cleaned.len() as int),
        None => cleaned,
    };
    strip_leading_slashes(strip_drive(tail))
}

fn marker_at(s: &Vec<char>, i: usize) -> (r: bool)
    requires
        i + 7 <= s@.len(),
    ensures
        r == vault_marker_at(s@, i as int),
{
    let n = s.len();
    s[i] == '/' && (s[i + 1] == 'v' || s[i + 1] == 'V') && (s[i + 2] == 'a' || s[i + 2] == 'A')
        && (s[i + 3] == 'u' || s[i + 3] == 'U') && (s[i + 4] == 'l' || s[i + 4] == 'L') && (s[i + 5]
        == 't' || s[i + 5] == 'T') && s[i + 6] == '/'
}

fn find_last_marker(s: &Vec<char>) -> (r: Option<usize>)
    ensures
        match r {
            Some(i) => i + 7 <= s@.len() && spec_last_marker(s@) == Some(i as int),
            None => spec_last_marker(s@) is None,
        },
{
    let n = s.len();
    if n < 7 {
        return None;
    }
    let mut i: usize = n - 7 + 1;
    while i > 0
        invariant
            i <= n - 7 + 1,
            n == s@.len(),
            n >= 7,
            find_marker_from(s@, n - 7) == find_marker_from(s@, i - 1),
        decreases i,
    {
        if marker_at(s, i - 1) {
            return Some(i - 1);
        }
        i = i - 1;
    }
    None
}

/// The unifier for imported category paths; see `spec_normalize_category`.
pub fn normalize_category_path(raw: &str) -> (r: String)
    ensures
        r@ == spec_normalize_category(raw@),
{
    let rs = chars_vec(raw);
    let cleaned = to_slashes(&rs);
    let cn = cleaned.len();
    let tail: Vec<char> = match find_last_marker(&cleaned) {
        Some(i) => {
            let mut t: Vec<char> = Vec::new();
            let mut k: usize = i + 7;
            while k < cleaned.len()
                invariant
                    i + 7 <= k <= cleaned@.len(),
                    t@ == cleaned@.subrange(i + 7, k as int),
                decreases cleaned@.len() - k,
            {
                t.push(cleaned[k]);
                k = k + 1;
                assert(t@ =~= cleaned@.subrange(i + 7, k as int));
            }
            t
        },
        None => cleaned,
    };
    let after_drive: Vec<char> = if tail.len() >= 2 && tail[1] == ':' {
        let mut t: Vec<char> = Vec::new();
        let mut k: usize = 2;
        while k < tail.len()
            invariant
                2 <= k <= tail@.len(),
                tail@.len() >= 2,
                t@ == tail@.subrange(2, k as int),
            decreases tail@.len() - k,
        {
            t.push(tail[k]);
            k = k + 1;
            assert(t@ =~= tail@.subrange(2, k as int));
        }
        proof {
            assert(t@ =~= strip_drive(tail@));
        }
        t
    } else {
        tail
    };
    proof {
        assert(after_drive@.subrange(0, after_drive@.len() as int) =~= after_drive@);
    }
    let mut start: usize = 0;
    while start < after_drive.len() && after_drive[start] == '/'
        invariant
            start <= after_drive@.len(),
            strip_leading_slashes(after_drive@) == strip_leading_slashes(
                after_drive@.subrange(start as int, after_drive@.len() as int),
            ),
        decreases after_drive@.len() - start,
    {
        proof {
            let cur = after_drive@.subrange(start as int, after_drive@.len() as int);
            assert(cur.drop_first() =~= after_drive@.subrange(
                start + 1,
                after_drive@.len() as int,
            ));
        }
        start = start + 1;
    }
    let mut out: Vec<char> = Vec::new();
    let mut k: usize = start;
    while k < after_drive.len()
        invariant
            start <= k <= after_drive@.len(),
            out@ == after_drive@.subrange(start as int, k as int),
        decreases after_drive@.len() - k,
    {
        out.push(after_drive[k]);
        k = k + 1;
        assert(out@ =~= after_drive@.subrange(start as int, k as int));
    }
    proof {
        let rest = after_drive@.subrange(start as int, after_drive@.len() as int);
        assert(rest.len() == 0 || rest[0] != '/');
        assert(strip_leading_slashes(rest) == rest);
        assert(out@ =~= rest);
    }
    string_from_chars(&out)
}

/// Directory names the scanner never descends into: hidden names, the
/// trash and the asset store.
pub open spec fn spec_should_skip(name: Seq<char>) -> bool {
    (name.len() > 0 && name[0] == '.') || name == "trash"@ || name == "assets"@
}

/// Whether a directory of this name is skipped when scanning categories.
pub fn should_skip_dir(name: &str) -> (r: bool)
    ensures
        r == spec_should_skip(name@),
{
    let cs = chars_vec(name);
    if cs.len() > 0 && cs[0] == '.' {
        return true;
    }
    let trash = String::from_str("trash");
    let assets = String::from_str("assets");
    let n = name.to_owned();
    n == trash || n == assets
}

/// The rewrite target used by the atomic write: the path with its
/// extension replaced by `tmp`, or with `.tmp` appended when the final
/// component has no extension.
pub open spec fn spec_temp_path(s: Seq<char>) -> Seq<char> {
    let bstart = match spec_last_char(s, '/') {
        Some(i) => i + 1,
        None => 0,
    };
    match spec_last_char(s, '.') {
        Some(d) => if d > bstart {
            s.subrange(0, d) + seq!['.', 't', 'm', 'p']
        } else {
            s + seq!['.', 't', 'm', 'p']
        },
        None => s + seq!['.', 't', 'm', 'p'],
    }
}

/// The sibling path a write is staged at before the final rename.
pub fn temp_path(path: &str) -> (r: String)
    ensures
        r@ == spec_temp_path(path@),
{
    let cs = chars_vec(path);
    let n = cs.len();
    let bstart: usize = match find_last_char(&cs, '/') {
        Some(i) => i + 1,
        None => 0,
    };
    let keep: usize = match find_last_char(&cs, '.') {
        Some(d) => if d > bstart {
            d
        } else {
            n
        },
        None => n,
    };
    let mut out: Vec<char> = Vec::new();
    let mut k: usize = 0;
    while k < keep
        invariant
            k <= keep,
            keep <= cs@.len(),
            out@ == cs@.subrange(0, k as int),
        decreases keep - k,
    {
        out.push(cs[k]);
        k = k + 1;
        assert(out@ =~= cs@.subrange(0, k as int));
    }
    out.push('.');
    out.push('t');
    out.push('m');
    out.push('p');
    proof {
        if keep == cs@.len() {
            assert(cs@.subrange(0, cs@.len() as int) =~= cs@);
            assert(out@ =~= path@ + seq!['.', 't', 'm', 'p']);
        } else {
            assert(out@ =~= cs@.subrange(0, keep as int) + seq!['.', 't', 'm', 'p']);
        }
    }
    string_from_chars(&out)
}

/// The final path component: everything after the last separator.
pub open spec fn spec_basename(s: Seq<char>) -> Seq<char> {
    match spec_last_char(s, '/') {
        Some(i) => s.subrange(i + 1, s.len() as int),
        None => s,
    }
}

/// The final path component: everything after the last separator.
pub fn basename(path: &str) -> (r: String)
    ensures
        r@ == spec_basename(path@),
{
    let cs = chars_vec(path);
    let n = cs.len();
    let bstart: usize = match find_last_char(&cs, '/') {
        Some(i) => i + 1,
        None => 0,
    };
    assert(bstart <= n);
    let mut out: Vec<char> = Vec::new();
    let mut k: usize = bstart;
    while k < cs.len()
        invariant
            bstart <= k <= cs@.len(),
            out@ == cs@.subrange(bstart as int, k as int),
        decreases cs@.len() - k,
    {
        out.push(cs[k]);
        k = k + 1;
        assert(out@ =~= cs@.subrange(bstart as int, k as int));
    }
    proof {
        if bstart == 0 {
            assert(cs@.subrange(0, cs@.len() as int) =~= cs@);
        }
    }
    string_from_chars(&out)
}

/// The parent of a path: everything before the last separator, or the
/// empty string when there is none.
pub open spec fn spec_parent(s: Seq<char>) -> Seq<char> {
    match spec_last_char(s, '/') {
        Some(i) => s.subrange(0, i),
        None => Seq::empty(),
    }
}

/// The parent of a path: everything before the last separator, or the
/// empty string when there is none.
pub fn parent_path(path: &str) -> (r: String)
    ensures
        r@ == spec_parent(path@),
{
    let cs = chars_vec(path);
    let n = cs.len();
    let end: usize = match find_last_char(&cs, '/') {
        Some(i) => i,
        None => 0,
    };
    assert(end <= n);
    let mut out: Vec<char> = Vec::new();
    let mut k: usize = 0;
    while k < end
        invariant
            k <= end,
            end <= cs@.len(),
            out@ == cs@.subrange(0, k as int),
        decreases end - k,
    {
        out.push(cs[k]);
        k = k + 1;
        assert(out@ =~= cs@.subrange(0, k as int));
    }
    proof {
        if spec_last_char(path@, '/') is None {
            assert(out@ =~= Seq::<char>::empty());
        }
    }
    string_from_chars(&out)
}

} // verus!
