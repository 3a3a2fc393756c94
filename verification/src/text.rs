//! Text helpers over the character view of strings.

use vstd::prelude::*;
use vstd::string::*;
use vstd::utf8::*;

verus! {

/// Index at which the last `/`-separated segment of `s` starts.
pub open spec fn segment_start(s: Seq<char>) -> nat
    decreases s.len(),
{
    if s.len() == 0 {
        0
    } else if s.last() == '/' {
        s.len()
    } else {
        segment_start(s.drop_last())
    }
}

/// The text after the last `/` of `s` (all of `s` when it holds none).
pub open spec fn last_segment(s: Seq<char>) -> Seq<char> {
    s.skip(segment_start(s) as int)
}

/// The last segment starts inside `s`, holds no `/`, and follows a `/` unless
/// it is all of `s`.
pub proof fn lemma_segment_start(s: Seq<char>)
    ensures
        segment_start(s) <= s.len(),
        forall|j: int| segment_start(s) <= j < s.len() ==> s[j] != '/',
        segment_start(s) > 0 ==> s[segment_start(s) - 1] == '/',
    decreases s.len(),
{
    if s.len() > 0 && s.last() != '/' {
        let t = s.drop_last();
        lemma_segment_start(t);
        assert forall|j: int| segment_start(s) <= j < s.len() implies s[j] != '/' by {
            if j < t.len() {
                assert(t[j] == s[j]);
            }
        }
        if segment_start(s) > 0 {
            assert(t[segment_start(s) - 1] == s[segment_start(s) - 1]);
        }
    }
}

/// The characters of `s`, in order.
pub fn chars_of(s: &str) -> (v: Vec<char>)
    ensures
        v@ == s@,
{
    broadcast use vstd::string::group_string_axioms;

    let mut v: Vec<char> = Vec::new();
    for c in it: s.chars()
        invariant
            v@.len() == it.index(),
            forall|j: int| 0 <= j < it.index() ==> v@[j] == it.seq()[j],
    {
        v.push(c);
    }
    assert(v@ =~= s@);
    v
}

/// The text after the last `/` of `s`, as `rsplit('/').next()` yields it.
pub fn last_segment_of(s: &str) -> (r: String)
    ensures
        r@ == last_segment(s@),
{
    let cs = chars_of(s);
    let n = cs.len();
    let mut i = n;
    proof {
        assert(s@.take(n as int) =~= s@);
    }
    while i > 0 && cs[i - 1] != '/'
        invariant
            cs@ == s@,
            n == s@.len(),
            i <= n,
            segment_start(s@) == segment_start(s@.take(i as int)),
        decreases i,
    {
        proof {
            assert(s@.take(i as int).drop_last() =~= s@.take(i - 1));
        }
        i = i - 1;
    }
    proof {
        if i == 0 {
            assert(s@.take(0).len() == 0);
        }
    }
    s.substring_char(i, n).to_owned()
}


/// The view of an optional string slice.
pub open spec fn opt_text(o: Option<&str>) -> Option<Seq<char>> {
    match o {
        Some(s) => Some(s@),
        None => None,
    }
}

/// The view of an optional owned string.
pub open spec fn opt_string(o: Option<String>) -> Option<Seq<char>> {
    match o {
        Some(s) => Some(s@),
        None => None,
    }
}

/// The number of UTF-8 bytes that encode `s`.
pub open spec fn byte_len(s: Seq<char>) -> nat {
    encode_utf8(s).len()
}

/// How many leading bytes of `s` a shortened fallback name keeps: at most 8.
pub open spec fn fallback_cut(s: Seq<char>) -> int {
    if byte_len(s) < 8 {
        byte_len(s) as int
    } else {
        8
    }
}

/// The cut of a fallback name falls between two characters.
pub open spec fn fallback_cut_ok(s: Seq<char>) -> bool {
    is_char_boundary(encode_utf8(s), fallback_cut(s))
}

/// The text encoded by the first (at most) 8 bytes of `s`.
pub open spec fn fallback_name(s: Seq<char>) -> Seq<char> {
    decode_utf8(encode_utf8(s).take(fallback_cut(s)))
}

/// Whether a display name falls back on the session id: there is no project
/// directory, or its last segment is empty.
pub open spec fn display_name_uses_fallback(project_dir: Option<Seq<char>>) -> bool {
    match project_dir {
        Some(dir) => last_segment(dir).len() == 0,
        None => true,
    }
}

/// The display name of a session: the last segment of its project directory,
/// or else the first 8 bytes of the fallback.
pub open spec fn display_name(project_dir: Option<Seq<char>>, fallback: Seq<char>) -> Seq<char> {
    match project_dir {
        Some(dir) => if last_segment(dir).len() > 0 {
            last_segment(dir)
        } else {
            fallback_name(fallback)
        },
        None => fallback_name(fallback),
    }
}

/// Where a fallback name is cut: after at most 8 bytes of `s`.
fn fallback_cut_of(s: &str) -> (r: usize)
    ensures
        r == fallback_cut(s@),
{
    let n = s.as_bytes().len();
    if n < 8 {
        n
    } else {
        8
    }
}

/// Whether `s` can serve as a fallback name: its cut after at most 8 bytes
/// falls between two characters.
pub fn fallback_cut_fits(s: &str) -> (r: bool)
    ensures
        r == fallback_cut_ok(s@),
{
    let k = fallback_cut_of(s);
    s.is_char_boundary(k)
}

/// The text made of the first `fallback_cut(s@)` bytes of `s`.
fn leading_bytes(s: &str) -> (r: String)
    requires
        fallback_cut_ok(s@),
    ensures
        r@ == fallback_name(s@),
{
    let len = fallback_cut_of(s);
    let (head, _tail) = s.split_at(len);
    proof {
        broadcast use encode_utf8_decode_utf8;

        assert(encode_utf8(head@) =~= encode_utf8(s@).take(fallback_cut(s@)));
    }
    head.to_owned()
}

/// The name shown for a session: the last segment of `project_dir`, or, when
/// there is none or it is empty, the first (at most) 8 bytes of `fallback`.
pub fn display_name_from_project_dir(project_dir: Option<&str>, fallback: &str) -> (r: String)
    requires
        display_name_uses_fallback(opt_text(project_dir)) ==> fallback_cut_ok(fallback@),
    ensures
        r@ == display_name(opt_text(project_dir), fallback@),
{
    if let Some(dir) = project_dir {
        let name = last_segment_of(dir);
        if !name.as_str().is_empty() {
            return name;
        }
    }
    leading_bytes(fallback)
}

/// The first `n` characters of `s` (all of `s` when it is shorter).
pub fn first_chars(s: &str, n: usize) -> (r: String)
    ensures
        r@ == s@.take(if s@.len() < n { s@.len() as int } else { n as int }),
{
    let len = s.unicode_len();
    let k = if len < n {
        len
    } else {
        n
    };
    s.substring_char(0, k).to_owned()
}

/// The key under which an override of `(app_type, session_id)` is persisted:
/// the two joined by a `:`.
pub open spec fn file_key(app_type: Seq<char>, session_id: Seq<char>) -> Seq<char> {
    app_type + seq![':'] + session_id
}

/// `s` split at its first `:`, or `None` when it holds no `:`.
pub open spec fn split_at_colon(s: Seq<char>) -> Option<(Seq<char>, Seq<char>)> {
    if s.contains(':') {
        let i = choose|i: int| 0 <= i < s.len() && s[i] == ':' && !s.take(i).contains(':');
        Some((s.take(i), s.skip(i + 1)))
    } else {
        None
    }
}

/// Splitting a persisted key gives back the parts it was joined from, as long
/// as the first part holds no `:`.
pub proof fn lemma_split_file_key(a: Seq<char>, b: Seq<char>)
    requires
        !a.contains(':'),
    ensures
        split_at_colon(file_key(a, b)) == Some((a, b)),
{
    let s = file_key(a, b);
    let n = a.len() as int;
    assert(s[n] == ':');
    assert(s.take(n) =~= a);
    assert(s.skip(n + 1) =~= b);
    let i = choose|i: int| 0 <= i < s.len() && s[i] == ':' && !s.take(i).contains(':');
    if i < n {
        assert(a[i] == s[i]);
    } else if i > n {
        assert(s.take(i)[n] == ':');
    }
}

/// A key that splits was joined from its two parts, the first without `:`.
pub proof fn lemma_split_inverts(s: Seq<char>)
    ensures
        split_at_colon(s) matches Some((a, b)) ==> !a.contains(':') && s == file_key(a, b),
{
    if s.contains(':') {
        let i = choose|i: int| 0 <= i < s.len() && s[i] == ':' && !s.take(i).contains(':');
        let j = choose|j: int| 0 <= j < s.len() && s[j] == ':';
        lemma_first_colon(s, j);
        assert(file_key(s.take(i), s.skip(i + 1)) =~= s);
    }
}

/// A text with a `:` at `j` has a first `:`.
proof fn lemma_first_colon(s: Seq<char>, j: int)
    requires
        0 <= j < s.len(),
        s[j] == ':',
    ensures
        exists|i: int| 0 <= i < s.len() && s[i] == ':' && !s.take(i).contains(':'),
    decreases j,
{
    if s.take(j).contains(':') {
        let k = choose|k: int| 0 <= k < s.take(j).len() && s.take(j)[k] == ':';
        lemma_first_colon(s, k);
    } else {
        assert(0 <= j < s.len() && s[j] == ':' && !s.take(j).contains(':'));
    }
}

/// Joins `app_type` and `session_id` into the key of a persisted override.
pub fn override_file_key(app_type: &str, session_id: &str) -> (r: String)
    ensures
        r@ == file_key(app_type@, session_id@),
{
    let sep = ":";
    proof {
        reveal_strlit(":");
        assert(sep@ =~= seq![':']);
    }
    let r = app_type.to_owned().concat(sep);
    r.concat(session_id)
}

/// Splits `key` at its first `:`, as `str::split_once(':')` does.
pub fn split_key(key: &str) -> (r: Option<(String, String)>)
    ensures
        match r {
            Some((a, b)) => split_at_colon(key@) == Some((a@, b@)),
            None => split_at_colon(key@) is None,
        },
{
    let cs = chars_of(key);
    let n = cs.len();
    let mut i: usize = 0;
    while i < n && cs[i] != ':'
        invariant
            cs@ == key@,
            n == key@.len(),
            i <= n,
            !key@.take(i as int).contains(':'),
        decreases n - i,
    {
        proof {
            assert(key@.take(i + 1) =~= key@.take(i as int).push(cs@[i as int]));
        }
        i = i + 1;
    }
    if i == n {
        proof {
            assert(key@.take(n as int) =~= key@);
        }
        None
    } else {
        proof {
            let s = key@;
            let j = choose|j: int| 0 <= j < s.len() && s[j] == ':' && !s.take(j).contains(':');
            assert(0 <= i < s.len() && s[i as int] == ':' && !s.take(i as int).contains(':'));
            if j < i {
                assert(s.take(i as int)[j] == ':');
            } else if j > i {
                assert(s.take(j)[i as int] == ':');
            }
        }
        let a = key.substring_char(0, i).to_owned();
        let b = key.substring_char(i + 1, n).to_owned();
        Some((a, b))
    }
}

/// Whether `a` and `b` hold the same text.
pub fn same_text(a: &str, b: &str) -> (r: bool)
    ensures
        r == (a@ == b@),
{
    a.to_owned() == b.to_owned()
}

/// `needle` occurs somewhere in `hay`.
pub open spec fn occurs_in(needle: Seq<char>, hay: Seq<char>) -> bool {
    exists|i: int| 0 <= i && i + needle.len() <= hay.len() && #[trigger] hay.subrange(i, i + needle.len()) == needle
}

/// Whether `needle` occurs in `hay`, as `str::contains` answers it.
pub fn contains_text(hay: &str, needle: &str) -> (b: bool)
    ensures
        b == occurs_in(needle@, hay@),
{
    let h = chars_of(hay);
    let nd = chars_of(needle);
    let m = nd.len();
    if m > h.len() {
        return false;
    }
    let last = h.len() - m;
    let mut i: usize = 0;
    while i <= last
        invariant
            h@ == hay@,
            nd@ == needle@,
            m == needle@.len(),
            last + m == hay@.len(),
            forall|k: int| 0 <= k < i ==> #[trigger] hay@.subrange(k, k + m) != needle@,
        decreases last + 1 - i,
    {
        let mut j: usize = 0;
        while j < m && h[i + j] == nd[j]
            invariant
                h@ == hay@,
                nd@ == needle@,
                m == needle@.len(),
                i <= last,
                last + m == hay@.len(),
                h.len() == last + m,
                j <= m,
                forall|t: int| 0 <= t < j ==> hay@[i + t] == needle@[t],
            decreases m - j,
        {
            j = j + 1;
        }
        if j == m {
            proof {
                assert(hay@.subrange(i as int, i + m) =~= needle@);
            }
            return true;
        }
        proof {
            assert(hay@.subrange(i as int, i + m)[j as int] != needle@[j as int]);
        }
        i = i + 1;
    }
    false
}

} // verus!
