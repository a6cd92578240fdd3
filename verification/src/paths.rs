//! Paths are modelled as strings whose components are the non-empty runs of
//! characters between `/` separators; an absolute path also has the root
//! component `/` in front. Repeated and trailing separators are not
//! components, and `.` segments are left out, except one that leads a relative
//! path; `..` is an ordinary segment.
use vstd::prelude::*;
use vstd::string::*;

verus! {

/// The marker component standing for the root of an absolute path.
pub open spec fn root_marker() -> Seq<char> {
    seq!['/']
}

/// State of a left-to-right scan of `p`: the segments completed so far and the
/// segment that is still being read.
pub open spec fn scan_segments(p: Seq<char>) -> (Seq<Seq<char>>, Seq<char>)
    decreases p.len(),
{
    if p.len() == 0 {
        (Seq::empty(), Seq::empty())
    } else {
        let prev = scan_segments(p.drop_last());
        if p.last() == '/' {
            (if prev.1.len() > 0 { prev.0.push(prev.1) } else { prev.0 }, Seq::empty())
        } else {
            (prev.0, prev.1.push(p.last()))
        }
    }
}

/// The non-empty `/`-separated segments of `p`, in order.
pub open spec fn segments(p: Seq<char>) -> Seq<Seq<char>> {
    let s = scan_segments(p);
    if s.1.len() > 0 {
        s.0.push(s.1)
    } else {
        s.0
    }
}

pub open spec fn is_absolute(p: Seq<char>) -> bool {
    p.len() > 0 && p[0] == '/'
}

/// The segment `.`, standing for the directory itself.
pub open spec fn cur_dir() -> Seq<char> {
    seq!['.']
}

/// `s` without its `.` segments.
pub open spec fn drop_cur_dirs(s: Seq<Seq<char>>) -> Seq<Seq<char>>
    decreases s.len(),
{
    if s.len() == 0 {
        Seq::empty()
    } else if s.last() == cur_dir() {
        drop_cur_dirs(s.drop_last())
    } else {
        drop_cur_dirs(s.drop_last()).push(s.last())
    }
}

/// No segment of `s` is `.`.
pub open spec fn no_cur_dir(s: Seq<Seq<char>>) -> bool {
    forall|i: int| 0 <= i < s.len() ==> s[i] != cur_dir()
}

/// The segments of `p` that are components: `.` segments are left out, except
/// one that leads a relative path.
pub open spec fn component_segments(p: Seq<char>) -> Seq<Seq<char>> {
    let s = segments(p);
    if !is_absolute(p) && s.len() > 0 && s[0] == cur_dir() {
        seq![cur_dir()] + drop_cur_dirs(s.skip(1))
    } else {
        drop_cur_dirs(s)
    }
}

/// The components of a path: the root marker for an absolute path, then its
/// component segments.
pub open spec fn path_components(p: Seq<char>) -> Seq<Seq<char>> {
    if is_absolute(p) {
        seq![root_marker()] + component_segments(p)
    } else {
        component_segments(p)
    }
}

/// Segments joined by single separators.
pub open spec fn join_segments(s: Seq<Seq<char>>) -> Seq<char>
    decreases s.len(),
{
    if s.len() == 0 {
        Seq::empty()
    } else if s.len() == 1 {
        s[0]
    } else {
        join_segments(s.drop_last()) + seq!['/'] + s.last()
    }
}

/// The path spelled by a sequence of components.
pub open spec fn join_components(c: Seq<Seq<char>>) -> Seq<char> {
    if c.len() > 0 && c[0] == root_marker() {
        seq!['/'] + join_segments(c.skip(1))
    } else {
        join_segments(c)
    }
}

/// A path in normal form is spelled exactly as its components are joined.
pub open spec fn is_normal_path(p: Seq<char>) -> bool {
    join_components(path_components(p)) == p
}

/// `path` with the components of `base` taken off its front, when `base` is a
/// component-wise prefix of `path`.
pub open spec fn strip_path_prefix(path: Seq<char>, base: Seq<char>) -> Option<Seq<char>> {
    let cp = path_components(path);
    let cb = path_components(base);
    if cb.len() <= cp.len() && cp.take(cb.len() as int) == cb {
        Some(join_components(cp.skip(cb.len() as int)))
    } else {
        None
    }
}

/// `base` extended by `rel`: an absolute `rel` replaces `base`; otherwise a
/// separator is put between them unless `base` is empty or already ends with one.
pub open spec fn join_path(base: Seq<char>, rel: Seq<char>) -> Seq<char> {
    if is_absolute(rel) {
        rel
    } else if base.len() == 0 || base.last() == '/' {
        base + rel
    } else {
        base + seq!['/'] + rel
    }
}

pub open spec fn no_separator(s: Seq<char>) -> bool {
    forall|i: int| 0 <= i < s.len() ==> s[i] != '/'
}

/// A segment is non-empty and holds no separator.
pub open spec fn proper_segment(x: Seq<char>) -> bool {
    x.len() > 0 && no_separator(x)
}

pub open spec fn proper_segments(s: Seq<Seq<char>>) -> bool {
    forall|i: int| 0 <= i < s.len() ==> #[trigger] proper_segment(s[i])
}

pub proof fn lemma_scan_proper(p: Seq<char>)
    ensures
        proper_segments(scan_segments(p).0),
        no_separator(scan_segments(p).1),
    decreases p.len(),
{
    if p.len() > 0 {
        lemma_scan_proper(p.drop_last());
        let prev = scan_segments(p.drop_last());
        if p.last() != '/' {
            assert(no_separator(prev.1.push(p.last())));
        } else if prev.1.len() > 0 {
            let s = prev.0.push(prev.1);
            assert(scan_segments(p).0 == s);
            assert forall|i: int| 0 <= i < s.len() implies #[trigger] proper_segment(s[i]) by {
                if i < prev.0.len() {
                    assert(s[i] == prev.0[i]);
                    assert(proper_segment(prev.0[i]));
                } else {
                    assert(s[i] == prev.1);
                }
            }
        }
    }
}

pub proof fn lemma_segments_proper(p: Seq<char>)
    ensures
        proper_segments(segments(p)),
{
    lemma_scan_proper(p);
    let s = scan_segments(p);
    if s.1.len() > 0 {
        let t = s.0.push(s.1);
        assert(segments(p) == t);
        assert forall|i: int| 0 <= i < t.len() implies #[trigger] proper_segment(t[i]) by {
            if i < s.0.len() {
                assert(t[i] == s.0[i]);
                assert(proper_segment(s.0[i]));
            } else {
                assert(t[i] == s.1);
            }
        }
    }
}

/// Scanning a concatenation whose first part ends at a segment boundary.
pub proof fn lemma_scan_concat(a: Seq<char>, b: Seq<char>)
    requires
        scan_segments(a).1.len() == 0,
    ensures
        scan_segments(a + b) == (scan_segments(a).0 + scan_segments(b).0, scan_segments(b).1),
    decreases b.len(),
{
    if b.len() == 0 {
        assert(a + b =~= a);
    } else {
        lemma_scan_concat(a, b.drop_last());
        assert((a + b).drop_last() =~= a + b.drop_last());
        let sa = scan_segments(a).0;
        let pb = scan_segments(b.drop_last());
        if b.last() == '/' && pb.1.len() > 0 {
            assert((sa + pb.0).push(pb.1) =~= sa + pb.0.push(pb.1));
        }
    }
}

/// A path that ends with a separator is scanned up to a segment boundary.
pub proof fn lemma_scan_after_separator(a: Seq<char>)
    ensures
        scan_segments(a.push('/')).1.len() == 0,
        scan_segments(a.push('/')).0 == segments(a),
{
    assert(a.push('/').drop_last() =~= a);
}

pub proof fn lemma_segments_concat(a: Seq<char>, b: Seq<char>)
    requires
        scan_segments(a).1.len() == 0,
    ensures
        segments(a + b) == scan_segments(a).0 + segments(b),
{
    lemma_scan_concat(a, b);
    let sa = scan_segments(a).0;
    let sb = scan_segments(b);
    if sb.1.len() > 0 {
        assert((sa + sb.0).push(sb.1) =~= sa + sb.0.push(sb.1));
    }
}

pub proof fn lemma_join_segments_append(s1: Seq<Seq<char>>, s2: Seq<Seq<char>>)
    requires
        s1.len() > 0,
        s2.len() > 0,
    ensures
        join_segments(s1 + s2) == join_segments(s1) + seq!['/'] + join_segments(s2),
    decreases s2.len(),
{
    if s2.len() == 1 {
        assert((s1 + s2).drop_last() =~= s1);
    } else {
        lemma_join_segments_append(s1, s2.drop_last());
        assert((s1 + s2).drop_last() =~= s1 + s2.drop_last());
        assert(join_segments(s1 + s2) == join_segments(s1 + s2.drop_last()) + seq!['/'] + s2.last());
        assert(join_segments(s1 + s2) =~= join_segments(s1) + seq!['/'] + join_segments(s2));
    }
}

pub proof fn lemma_join_segments_first(s: Seq<Seq<char>>)
    requires
        s.len() > 0,
    ensures
        join_segments(s).len() >= s[0].len(),
        forall|i: int| 0 <= i < s[0].len() ==> join_segments(s)[i] == s[0][i],
    decreases s.len(),
{
    if s.len() > 1 {
        lemma_join_segments_first(s.drop_last());
    }
}

/// Leaving out `.` segments keeps segments proper.
pub proof fn lemma_drop_cur_dirs_proper(s: Seq<Seq<char>>)
    requires
        proper_segments(s),
    ensures
        proper_segments(drop_cur_dirs(s)),
    decreases s.len(),
{
    if s.len() > 0 {
        let t = s.drop_last();
        assert forall|i: int| 0 <= i < t.len() implies #[trigger] proper_segment(t[i]) by {
            assert(t[i] == s[i]);
        }
        lemma_drop_cur_dirs_proper(t);
        assert(proper_segment(s[s.len() - 1]));
        let d = drop_cur_dirs(s);
        if s.last() != cur_dir() {
            assert forall|i: int| 0 <= i < d.len() implies #[trigger] proper_segment(d[i]) by {
                if i < d.len() - 1 {
                    assert(d[i] == drop_cur_dirs(t)[i]);
                }
            }
        }
    }
}

/// Leaving out `.` segments of a concatenation leaves them out of each part.
pub proof fn lemma_drop_cur_dirs_concat(a: Seq<Seq<char>>, b: Seq<Seq<char>>)
    ensures
        drop_cur_dirs(a + b) == drop_cur_dirs(a) + drop_cur_dirs(b),
    decreases b.len(),
{
    if b.len() == 0 {
        assert(a + b =~= a);
        assert(drop_cur_dirs(a) + drop_cur_dirs(b) =~= drop_cur_dirs(a));
    } else {
        lemma_drop_cur_dirs_concat(a, b.drop_last());
        assert((a + b).drop_last() =~= a + b.drop_last());
        assert((a + b).last() == b.last());
        if b.last() != cur_dir() {
            assert((drop_cur_dirs(a) + drop_cur_dirs(b.drop_last())).push(b.last()) =~= drop_cur_dirs(a)
                + drop_cur_dirs(b.drop_last()).push(b.last()));
        }
    }
}

/// Segments without `.` are left as they are.
pub proof fn lemma_drop_cur_dirs_none(s: Seq<Seq<char>>)
    requires
        no_cur_dir(s),
    ensures
        drop_cur_dirs(s) == s,
    decreases s.len(),
{
    if s.len() > 0 {
        let t = s.drop_last();
        assert forall|i: int| 0 <= i < t.len() implies t[i] != cur_dir() by {
            assert(t[i] == s[i]);
        }
        lemma_drop_cur_dirs_none(t);
        assert(s[s.len() - 1] != cur_dir());
        assert(t.push(s.last()) =~= s);
    }
}

/// The component segments of a path are proper.
pub proof fn lemma_component_segments_proper(p: Seq<char>)
    ensures
        proper_segments(component_segments(p)),
{
    lemma_segments_proper(p);
    let s = segments(p);
    if !is_absolute(p) && s.len() > 0 && s[0] == cur_dir() {
        let t = s.skip(1);
        assert forall|i: int| 0 <= i < t.len() implies #[trigger] proper_segment(t[i]) by {
            assert(t[i] == s[i + 1]);
        }
        lemma_drop_cur_dirs_proper(t);
        let c = seq![cur_dir()] + drop_cur_dirs(t);
        assert forall|i: int| 0 <= i < c.len() implies #[trigger] proper_segment(c[i]) by {
            if i == 0 {
                assert(c[0] == s[0]);
            } else {
                assert(c[i] == drop_cur_dirs(t)[i - 1]);
            }
        }
    } else {
        lemma_drop_cur_dirs_proper(s);
    }
}

/// The root marker is the only component that can be `/`, and only in front.
pub proof fn lemma_marker_position(p: Seq<char>, i: int)
    requires
        0 < i < path_components(p).len() || (i == 0 && !is_absolute(p) && i
            < path_components(p).len()),
    ensures
        path_components(p)[i] != root_marker(),
        path_components(p)[i].len() > 0,
        no_separator(path_components(p)[i]),
{
    lemma_component_segments_proper(p);
    let c = path_components(p);
    let cs = component_segments(p);
    if is_absolute(p) {
        assert(c[i] == cs[i - 1]);
        assert(proper_segment(cs[i - 1]));
    } else {
        assert(c[i] == cs[i]);
        assert(proper_segment(cs[i]));
    }
    assert(root_marker()[0] == '/');
    if c[i] == root_marker() {
        assert(c[i][0] == '/');
    }
}

pub proof fn lemma_join_proper_ends(s: Seq<Seq<char>>)
    requires
        s.len() > 0,
        proper_segments(s),
    ensures
        join_segments(s).len() > 0,
        join_segments(s)[0] != '/',
        join_segments(s).last() != '/',
{
    lemma_join_segments_first(s);
    assert(proper_segment(s[0]));
    assert(proper_segment(s[s.len() - 1]));
    if s.len() > 1 {
        let j = join_segments(s);
        assert(j == join_segments(s.drop_last()) + seq!['/'] + s.last());
        assert(j.last() == s.last().last());
    }
}

/// The components of a path are the marker, if any, followed by proper segments.
pub proof fn lemma_components_tail_proper(p: Seq<char>, k: int)
    requires
        0 < k <= path_components(p).len() || (k == 0 && !is_absolute(p)),
    ensures
        proper_segments(path_components(p).skip(k)),
        path_components(p).skip(k).len() > 0 ==> path_components(p).skip(k)[0] != root_marker(),
{
    let c = path_components(p);
    let r = c.skip(k);
    assert forall|i: int| 0 <= i < r.len() implies #[trigger] proper_segment(r[i]) by {
        lemma_marker_position(p, k + i);
    }
    if r.len() > 0 {
        lemma_marker_position(p, k);
    }
}

/// The components of a path extended by a relative path without `.` segments
/// are the components of the base followed by the segments of the relative path.
pub proof fn lemma_components_of_join(base: Seq<char>, rel: Seq<char>)
    requires
        !is_absolute(rel),
        rel.len() > 0,
        no_cur_dir(segments(rel)),
    ensures
        path_components(join_path(base, rel)) == path_components(base) + segments(rel),
{
    let p = join_path(base, rel);
    let sr = segments(rel);
    lemma_drop_cur_dirs_none(sr);
    if base.len() == 0 {
        assert(p =~= rel);
        assert(segments(base) =~= Seq::<Seq<char>>::empty());
        assert(component_segments(base) =~= Seq::<Seq<char>>::empty());
        if sr.len() > 0 {
            assert(sr[0] != cur_dir());
        }
        assert(path_components(base) + sr =~= sr);
    } else {
        if base.last() == '/' {
            assert(base == base.drop_last().push('/'));
            lemma_scan_after_separator(base.drop_last());
            assert(scan_segments(base).1.len() == 0);
            lemma_segments_concat(base, rel);
            assert(segments(base) == scan_segments(base).0);
        } else {
            assert(p =~= base.push('/') + rel);
            lemma_scan_after_separator(base);
            lemma_segments_concat(base.push('/'), rel);
        }
        assert(p[0] == base[0]);
        let sb = segments(base);
        assert(segments(p) == sb + sr);
        if !is_absolute(base) && sb.len() > 0 && sb[0] == cur_dir() {
            assert((sb + sr)[0] == sb[0]);
            assert((sb + sr).skip(1) =~= sb.skip(1) + sr);
            lemma_drop_cur_dirs_concat(sb.skip(1), sr);
            assert(component_segments(p) =~= component_segments(base) + sr);
        } else {
            if !is_absolute(base) && sb.len() > 0 {
                assert((sb + sr)[0] == sb[0]);
            }
            if !is_absolute(base) && sb.len() == 0 && sr.len() > 0 {
                assert((sb + sr)[0] == sr[0]);
                assert(sr[0] != cur_dir());
            }
            lemma_drop_cur_dirs_concat(sb, sr);
            assert(component_segments(p) =~= component_segments(base) + sr);
        }
        if is_absolute(base) {
            assert(seq![root_marker()] + (component_segments(base) + sr) =~= (seq![root_marker()]
                + component_segments(base)) + sr);
        }
    }
}

/// Joining a relative path in normal form and without `.` segments onto any
/// base, then taking the base off again, gives back the relative path.
pub proof fn lemma_strip_after_join(base: Seq<char>, rel: Seq<char>)
    requires
        !is_absolute(rel),
        rel.len() > 0,
        is_normal_path(rel),
        no_cur_dir(segments(rel)),
    ensures
        strip_path_prefix(join_path(base, rel), base) == Some(rel),
{
    lemma_components_of_join(base, rel);
    let cb = path_components(base);
    let cp = path_components(join_path(base, rel));
    lemma_segments_proper(rel);
    lemma_drop_cur_dirs_none(segments(rel));
    assert(cp.take(cb.len() as int) =~= cb);
    assert(cp.skip(cb.len() as int) =~= segments(rel));
    if segments(rel).len() > 0 {
        assert(segments(rel)[0] != cur_dir());
    }
    assert(path_components(rel) == segments(rel));
    if segments(rel).len() > 0 {
        assert(proper_segment(segments(rel)[0]));
        if segments(rel)[0] == root_marker() {
            assert(segments(rel)[0][0] == '/');
        }
    }
}

/// Taking a base off a path in normal form, then joining the rest back onto the
/// base, gives back the path.
pub proof fn lemma_join_after_strip(base: Seq<char>, path: Seq<char>)
    requires
        is_normal_path(base),
        is_normal_path(path),
        strip_path_prefix(path, base) is Some,
        strip_path_prefix(path, base).unwrap().len() > 0,
    ensures
        join_path(base, strip_path_prefix(path, base).unwrap()) == path,
{
    let cp = path_components(path);
    let cb = path_components(base);
    let k = cb.len() as int;
    let rest = cp.skip(k);
    let id = join_components(rest);
    assert(cp =~= cb + rest);
    if rest.len() == 0 {
        assert(join_segments(rest) =~= Seq::<char>::empty());
    }
    assert(rest.len() > 0);
    if k == 0 {
        assert(cb.len() == 0);
        assert(base == join_components(cb));
        assert(join_segments(cb) =~= Seq::<char>::empty());
        assert(base.len() == 0);
        assert(cp =~= rest);
        if !is_absolute(id) {
            assert(Seq::<char>::empty() + id =~= id);
        }
    } else {
        lemma_components_tail_proper(path, k);
        assert(id == join_segments(rest));
        lemma_join_proper_ends(rest);
        assert(!is_absolute(id));
        if cb[0] == root_marker() {
            assert(cp[0] == root_marker());
            assert(is_absolute(base)) by {
                if !is_absolute(base) {
                    lemma_marker_position(base, 0);
                }
            }
            if k == 1 {
                assert(cb.skip(1) =~= Seq::<Seq<char>>::empty());
                assert(base =~= seq!['/']);
                assert(cp.skip(1) =~= rest);
                assert(path =~= seq!['/'] + id);
            } else {
                lemma_components_tail_proper(base, 1);
                lemma_join_proper_ends(cb.skip(1));
                assert(cp.skip(1) =~= cb.skip(1) + rest);
                lemma_join_segments_append(cb.skip(1), rest);
                assert(base == seq!['/'] + join_segments(cb.skip(1)));
                assert(base.last() == join_segments(cb.skip(1)).last());
                assert(path =~= base + seq!['/'] + id);
            }
        } else {
            assert(!is_absolute(base)) by {
                if is_absolute(base) {
                    assert(cb[0] == root_marker());
                }
            }
            lemma_components_tail_proper(base, 0);
            assert(cb.skip(0) =~= cb);
            lemma_join_proper_ends(cb);
            assert(cp[0] == cb[0]);
            lemma_join_segments_append(cb, rest);
            assert(path =~= base + seq!['/'] + id);
        }
    }
}

/// The views of a sequence of strings.
pub open spec fn string_views(v: Seq<String>) -> Seq<Seq<char>> {
    v.map_values(|s: String| s@)
}

/// A string holding the single separator.
fn separator_string() -> (r: String)
    ensures
        r@ == root_marker(),
{
    let s = "/";
    proof {
        reveal_strlit("/");
    }
    String::from_str(s)
}

fn push_string(v: &mut Vec<String>, s: String)
    ensures
        string_views(final(v)@) == string_views(old(v)@).push(s@),
{
    v.push(s);
    proof {
        assert(string_views(v@) =~= string_views(old(v)@).push(s@));
    }
}

fn append_separator(r: &mut String)
    ensures
        final(r)@ == old(r)@.push('/'),
{
    let s = "/";
    proof {
        reveal_strlit("/");
    }
    r.append(s);
    proof {
        assert(r@ =~= old(r)@.push('/'));
    }
}

/// The root marker of `p`, if it is absolute, then all its segments.
fn raw_components_of(p: &str) -> (r: Vec<String>)
    ensures
        string_views(r@) == (if is_absolute(p@) {
            seq![root_marker()]
        } else {
            Seq::<Seq<char>>::empty()
        }) + segments(p@),
{
    let n = p.unicode_len();
    let mut out: Vec<String> = Vec::new();
    let absolute = n > 0 && p.get_char(0) == '/';
    if absolute {
        push_string(&mut out, separator_string());
    }
    let ghost front: Seq<Seq<char>> = if absolute {
        seq![root_marker()]
    } else {
        Seq::empty()
    };
    proof {
        assert(string_views(out@) =~= front);
        assert(p@.take(0) =~= Seq::<char>::empty());
        assert(front + Seq::<Seq<char>>::empty() =~= front);
    }
    let mut start: usize = 0;
    let mut i: usize = 0;
    while i < n
        invariant
            n == p@.len(),
            start <= i <= n,
            string_views(out@) == front + scan_segments(p@.take(i as int)).0,
            scan_segments(p@.take(i as int)).1 == p@.subrange(start as int, i as int),
        decreases n - i,
    {
        let c = p.get_char(i);
        let ghost prev = scan_segments(p@.take(i as int));
        proof {
            assert(p@.take(i + 1).drop_last() =~= p@.take(i as int));
            assert(p@.take(i + 1).last() == c);
        }
        if c == '/' {
            if start < i {
                let seg = p.substring_char(start, i);
                push_string(&mut out, String::from_str(seg));
                proof {
                    assert(front + prev.0.push(prev.1) =~= (front + prev.0).push(prev.1));
                }
            } else {
                assert(prev.1.len() == 0);
            }
            start = i + 1;
            proof {
                assert(p@.subrange(start as int, i + 1) =~= Seq::<char>::empty());
            }
        } else {
            proof {
                assert(p@.subrange(start as int, i + 1) =~= p@.subrange(start as int, i as int).push(
                    c,
                ));
            }
        }
        i = i + 1;
    }
    proof {
        assert(p@.take(n as int) =~= p@);
    }
    if start < n {
        let seg = p.substring_char(start, n);
        push_string(&mut out, String::from_str(seg));
        proof {
            let sc = scan_segments(p@);
            assert(front + sc.0.push(sc.1) =~= (front + sc.0).push(sc.1));
        }
    }
    out
}

fn is_cur_dir(c: &String) -> (r: bool)
    ensures
        r == (c@ == cur_dir()),
{
    let s = c.as_str();
    if s.unicode_len() == 1 {
        let ch = s.get_char(0);
        proof {
            if ch == '.' {
                assert(c@ =~= cur_dir());
            }
        }
        ch == '.'
    } else {
        false
    }
}

/// The components of `p`, as owned strings.
pub fn path_components_of(p: &str) -> (r: Vec<String>)
    ensures
        string_views(r@) == path_components(p@),
{
    let raw = raw_components_of(p);
    let ghost rv = string_views(raw@);
    let ghost segs = segments(p@);
    let absolute = p.unicode_len() > 0 && p.get_char(0) == '/';
    let mut out: Vec<String> = Vec::new();
    let mut i: usize = 0;
    proof {
        assert(rv.len() == raw@.len());
        assert(absolute == is_absolute(p@));
        if absolute {
            assert(rv.len() >= 1);
        }
    }
    if absolute {
        push_string(&mut out, raw[0].clone());
        i = 1;
        proof {
            assert(rv[0] == raw@[0]@);
        }
    } else if raw.len() > 0 && is_cur_dir(&raw[0]) {
        push_string(&mut out, raw[0].clone());
        i = 1;
        proof {
            assert(rv[0] == raw@[0]@);
        }
    }
    let ghost lead = string_views(out@);
    let ghost start = i as int;
    proof {
        assert(rv.subrange(start, start) =~= Seq::<Seq<char>>::empty());
        assert(lead + drop_cur_dirs(rv.subrange(start, start)) =~= lead);
    }
    while i < raw.len()
        invariant
            0 <= start <= i <= raw@.len(),
            rv == string_views(raw@),
            rv.len() == raw@.len(),
            string_views(out@) == lead + drop_cur_dirs(rv.subrange(start, i as int)),
        decreases raw@.len() - i,
    {
        proof {
            assert(rv.subrange(start, i + 1).drop_last() =~= rv.subrange(start, i as int));
            assert(rv.subrange(start, i + 1).last() == raw@[i as int]@);
        }
        if !is_cur_dir(&raw[i]) {
            let ghost before = string_views(out@);
            push_string(&mut out, raw[i].clone());
            proof {
                assert(lead + drop_cur_dirs(rv.subrange(start, i as int)).push(raw@[i as int]@) =~= (lead
                    + drop_cur_dirs(rv.subrange(start, i as int))).push(raw@[i as int]@));
            }
        }
        i = i + 1;
    }
    proof {
        let n = raw@.len() as int;
        if absolute {
            assert(rv.subrange(1, n) =~= segs);
            assert(lead =~= seq![root_marker()]);
        } else if start == 1 {
            assert(rv =~= segs);
            assert(rv.subrange(1, n) =~= segs.skip(1));
            assert(lead =~= seq![cur_dir()]);
        } else {
            assert(rv =~= segs);
            assert(rv.subrange(0, n) =~= segs);
            assert(lead =~= Seq::<Seq<char>>::empty());
            assert(lead + drop_cur_dirs(segs) =~= drop_cur_dirs(segs));
        }
    }
    out
}

fn is_root_component(c: &String) -> (r: bool)
    ensures
        r == (c@ == root_marker()),
{
    let s = c.as_str();
    if s.unicode_len() == 1 {
        let ch = s.get_char(0);
        proof {
            if ch == '/' {
                assert(c@ =~= root_marker());
            }
        }
        ch == '/'
    } else {
        false
    }
}

/// The path spelled by the components of `c` from index `from` on.
pub fn join_components_from(c: &Vec<String>, from: usize) -> (r: String)
    requires
        from <= c@.len(),
    ensures
        r@ == join_components(string_views(c@).skip(from as int)),
{
    let ghost v = string_views(c@).skip(from as int);
    let n = c.len();
    let mut r = String::new();
    let mut i = from;
    let mut first = from;
    if from < n && is_root_component(&c[from]) {
        append_separator(&mut r);
        i = from + 1;
        first = from + 1;
        proof {
            assert(v[0] == string_views(c@)[from as int]);
        }
    }
    let ghost lead: Seq<char> = r@;
    proof {
        assert(string_views(c@).subrange(first as int, i as int) =~= Seq::<Seq<char>>::empty());
        assert(lead + Seq::<char>::empty() =~= lead);
    }
    while i < n
        invariant
            n == c@.len(),
            first <= i <= n,
            r@ == lead + join_segments(string_views(c@).subrange(first as int, i as int)),
        decreases n - i,
    {
        let ghost sv = string_views(c@);
        proof {
            assert(sv.subrange(first as int, i + 1).drop_last() =~= sv.subrange(first as int, i as int));
            assert(sv[i as int] == c@[i as int]@);
        }
        if i > first {
            append_separator(&mut r);
            r.append(c[i].as_str());
            proof {
                assert(r@ =~= lead + (join_segments(sv.subrange(first as int, i as int)) + seq!['/']
                    + sv[i as int]));
            }
        } else {
            r.append(c[i].as_str());
            proof {
                assert(sv.subrange(first as int, i + 1) =~= seq![sv[i as int]]);
            }
        }
        i = i + 1;
    }
    proof {
        let sv = string_views(c@);
        if first == from {
            assert(sv.subrange(first as int, n as int) =~= v);
            if v.len() > 0 {
                assert(v[0] == sv[from as int]);
            }
            assert(lead =~= Seq::<char>::empty());
        } else {
            assert(sv.subrange(first as int, n as int) =~= v.skip(1));
            assert(lead =~= seq!['/']);
        }
    }
    r
}

/// Implements `strip_path_prefix`: the identifier of `path` relative to `base`.
pub fn strip_path_prefix_of(path: &str, base: &str) -> (r: Option<String>)
    ensures
        match r {
            Some(s) => strip_path_prefix(path@, base@) == Some(s@),
            None => strip_path_prefix(path@, base@) is None,
        },
{
    let cp = path_components_of(path);
    let cb = path_components_of(base);
    let k = cb.len();
    if k > cp.len() {
        return None;
    }
    let mut i: usize = 0;
    while i < k
        invariant
            k == cb@.len(),
            k <= cp@.len(),
            i <= k,
            string_views(cp@) == path_components(path@),
            string_views(cb@) == path_components(base@),
            forall|j: int| 0 <= j < i ==> cp@[j]@ == cb@[j]@,
        decreases k - i,
    {
        if cp[i] != cb[i] {
            proof {
                let vp = string_views(cp@);
                let vb = string_views(cb@);
                assert(vp.take(k as int)[i as int] == cp@[i as int]@);
                assert(vb[i as int] == cb@[i as int]@);
                if vp.take(k as int) == vb {
                    assert(vp.take(k as int)[i as int] == vb[i as int]);
                }
                assert(vp.take(k as int) != path_components(base@));
            }
            return None;
        }
        i = i + 1;
    }
    proof {
        let vp = string_views(cp@);
        let vb = string_views(cb@);
        assert forall|j: int| 0 <= j < k implies vp.take(k as int)[j] == vb[j] by {
            assert(cp@[j]@ == cb@[j]@);
        }
        assert(vp.take(k as int) =~= vb);
    }
    Some(join_components_from(&cp, k))
}

/// Implements `join_path`: `rel` pushed onto `base`.
pub fn join_path_of(base: &str, rel: &str) -> (r: String)
    ensures
        r@ == join_path(base@, rel@),
{
    if rel.unicode_len() > 0 && rel.get_char(0) == '/' {
        return String::from_str(rel);
    }
    let mut r = String::from_str(base);
    let n = base.unicode_len();
    if n > 0 && base.get_char(n - 1) != '/' {
        append_separator(&mut r);
    }
    r.append(rel);
    r
}

/// Whether the last character of `p` ends no file name: a trailing separator,
/// or the `.` of a trailing `.` component.
pub open spec fn ends_without_name(p: Seq<char>) -> bool {
    p.len() > 1 && (p.last() == '/' || (p.last() == '.' && p[p.len() - 2] == '/'))
}

/// `p` up to the end of its last component that is not `.`: trailing separators
/// and trailing `.` components are taken off, a lone `/` being kept.
pub open spec fn name_end(p: Seq<char>) -> Seq<char>
    decreases p.len(),
{
    if ends_without_name(p) {
        name_end(p.drop_last())
    } else {
        p
    }
}

/// The characters of `t` after its last separator.
pub open spec fn after_last_separator(t: Seq<char>) -> Seq<char>
    decreases t.len(),
{
    if t.len() == 0 || t.last() == '/' {
        Seq::empty()
    } else {
        after_last_separator(t.drop_last()).push(t.last())
    }
}

/// The final component of a path that is not `.`, unless it is empty or `..`
/// (a path that is only `.` has no file name).
pub open spec fn file_name(p: Seq<char>) -> Option<Seq<char>> {
    let name = after_last_separator(name_end(p));
    if name.len() == 0 || name == seq!['.'] || name == seq!['.', '.'] {
        None
    } else {
        Some(name)
    }
}

/// Index of the last `.` in `s`, or -1.
pub open spec fn last_dot(s: Seq<char>) -> int
    decreases s.len(),
{
    if s.len() == 0 {
        -1
    } else if s.last() == '.' {
        s.len() - 1
    } else {
        last_dot(s.drop_last())
    }
}

/// A file name without its extension; a name whose only dot leads has no extension.
pub open spec fn stem_of_name(name: Seq<char>) -> Seq<char> {
    let d = last_dot(name);
    if d <= 0 {
        name
    } else {
        name.take(d)
    }
}

/// The extension of a file name: what follows its last dot, unless that dot leads.
pub open spec fn extension_of_name(name: Seq<char>) -> Option<Seq<char>> {
    let d = last_dot(name);
    if d <= 0 {
        None
    } else {
        Some(name.skip(d + 1))
    }
}

pub open spec fn file_stem(p: Seq<char>) -> Option<Seq<char>> {
    match file_name(p) {
        Some(name) => Some(stem_of_name(name)),
        None => None,
    }
}

pub open spec fn extension(p: Seq<char>) -> Option<Seq<char>> {
    match file_name(p) {
        Some(name) => extension_of_name(name),
        None => None,
    }
}

/// `p` with the extension of its file name replaced by `ext` (removed when `ext`
/// is empty); a path without a file name is left as it is.
pub open spec fn with_extension(p: Seq<char>, ext: Seq<char>) -> Seq<char> {
    match file_name(p) {
        None => p,
        Some(name) => {
            let t = name_end(p);
            let kept = t.take(t.len() - name.len() + stem_of_name(name).len());
            if ext.len() == 0 {
                kept
            } else {
                kept + seq!['.'] + ext
            }
        },
    }
}

pub proof fn lemma_last_dot_bounds(s: Seq<char>)
    ensures
        -1 <= last_dot(s) < s.len(),
        last_dot(s) >= 0 ==> s[last_dot(s)] == '.',
        forall|i: int| last_dot(s) < i < s.len() ==> s[i] != '.',
    decreases s.len(),
{
    if s.len() > 0 {
        lemma_last_dot_bounds(s.drop_last());
        if s.last() != '.' {
            assert forall|i: int| last_dot(s) < i < s.len() implies s[i] != '.' by {
                if i < s.len() - 1 {
                    assert(s[i] == s.drop_last()[i]);
                }
            }
        }
    }
}

/// Where the file name of `p` stands: the name is `p[start..end]`, the path
/// without trailing separators and trailing `.` components is `p[..end]`, and the name's last dot, when
/// inside the name, is at `dot`.
struct NameSpan {
    start: usize,
    end: usize,
    dot: usize,
}

fn trimmed_end(p: &str) -> (e: usize)
    ensures
        e <= p@.len(),
        name_end(p@) == p@.take(e as int),
{
    let n = p.unicode_len();
    let mut e = n;
    proof {
        assert(p@.take(n as int) =~= p@);
    }
    while e > 1 && (p.get_char(e - 1) == '/' || (p.get_char(e - 1) == '.' && p.get_char(e - 2) == '/'))
        invariant
            e <= n == p@.len(),
            name_end(p@) == name_end(p@.take(e as int)),
        decreases e,
    {
        proof {
            assert(p@.take(e as int).drop_last() =~= p@.take(e - 1));
        }
        e = e - 1;
    }
    e
}

fn name_start(p: &str, e: usize) -> (s: usize)
    requires
        e <= p@.len(),
    ensures
        s <= e,
        after_last_separator(p@.take(e as int)) == p@.subrange(s as int, e as int),
{
    let mut s = e;
    proof {
        assert(p@.subrange(e as int, e as int) =~= Seq::<char>::empty());
        assert(after_last_separator(p@.take(e as int)) =~= after_last_separator(p@.take(e as int))
            + Seq::<char>::empty());
    }
    while s > 0 && p.get_char(s - 1) != '/'
        invariant
            s <= e <= p@.len(),
            after_last_separator(p@.take(e as int)) == after_last_separator(p@.take(s as int))
                + p@.subrange(s as int, e as int),
        decreases s,
    {
        proof {
            assert(p@.take(s as int).drop_last() =~= p@.take(s - 1));
            assert(p@.subrange(s - 1, e as int) =~= seq![p@[s - 1]] + p@.subrange(
                s as int,
                e as int,
            ));
            assert(after_last_separator(p@.take(s - 1)).push(p@[s - 1]) + p@.subrange(
                s as int,
                e as int,
            ) =~= after_last_separator(p@.take(s - 1)) + p@.subrange(s - 1, e as int));
        }
        s = s - 1;
    }
    proof {
        assert(after_last_separator(p@.take(s as int)) =~= Seq::<char>::empty());
        assert(Seq::<char>::empty() + p@.subrange(s as int, e as int) =~= p@.subrange(
            s as int,
            e as int,
        ));
    }
    s
}

fn dot_end(p: &str, s: usize, e: usize) -> (d: usize)
    requires
        s <= e <= p@.len(),
    ensures
        s <= d <= e,
        last_dot(p@.subrange(s as int, e as int)) == if d > s {
            d - 1 - s
        } else {
            -1
        },
{
    let mut d = e;
    while d > s && p.get_char(d - 1) != '.'
        invariant
            s <= d <= e <= p@.len(),
            last_dot(p@.subrange(s as int, e as int)) == last_dot(p@.subrange(s as int, d as int)),
        decreases d,
    {
        proof {
            assert(p@.subrange(s as int, d as int).drop_last() =~= p@.subrange(s as int, d - 1));
        }
        d = d - 1;
    }
    proof {
        if d > s {
            assert(p@.subrange(s as int, d as int).last() == '.');
        }
    }
    d
}

fn locate_file_name(p: &str) -> (r: NameSpan)
    ensures
        r.start <= r.end <= p@.len(),
        name_end(p@) == p@.take(r.end as int),
        after_last_separator(name_end(p@)) == p@.subrange(
            r.start as int,
            r.end as int,
        ),
        r.start <= r.dot <= r.end,
        last_dot(p@.subrange(r.start as int, r.end as int)) == if r.dot > r.start {
            r.dot - 1 - r.start
        } else {
            -1
        },
{
    let e = trimmed_end(p);
    let s = name_start(p, e);
    let d = dot_end(p, s, e);
    NameSpan { start: s, end: e, dot: d }
}

fn is_dot_name(p: &str, span: &NameSpan) -> (r: bool)
    requires
        span.start <= span.end <= p@.len(),
    ensures
        r == (p@.subrange(span.start as int, span.end as int) == seq!['.'] || p@.subrange(
            span.start as int,
            span.end as int,
        ) == seq!['.', '.']),
{
    let len = span.end - span.start;
    let ghost name = p@.subrange(span.start as int, span.end as int);
    proof {
        if name == seq!['.'] {
            assert(name.len() == 1 && name[0] == '.');
        }
        if name == seq!['.', '.'] {
            assert(name.len() == 2 && name[0] == '.');
        }
    }
    if len == 1 {
        let c = p.get_char(span.start);
        proof {
            if c == '.' {
                assert(name =~= seq!['.']);
            }
        }
        c == '.'
    } else if len == 2 {
        let c0 = p.get_char(span.start);
        let c1 = p.get_char(span.start + 1);
        proof {
            if c0 == '.' && c1 == '.' {
                assert(name =~= seq!['.', '.']);
            }
            if name == seq!['.', '.'] {
                assert(name[0] == '.' && name[1] == '.');
            }
        }
        c0 == '.' && c1 == '.'
    } else {
        false
    }
}

/// Implements `file_stem`.
pub fn file_stem_of(p: &str) -> (r: Option<String>)
    ensures
        match r {
            Some(s) => file_stem(p@) == Some(s@),
            None => file_stem(p@) is None,
        },
{
    let span = locate_file_name(p);
    if span.start == span.end || is_dot_name(p, &span) {
        return None;
    }
    proof {
        lemma_last_dot_bounds(p@.subrange(span.start as int, span.end as int));
    }
    if span.dot > span.start + 1 {
        let stem = p.substring_char(span.start, span.dot - 1);
        proof {
            assert(p@.subrange(span.start as int, span.end as int).take(span.dot - 1 - span.start)
                =~= p@.subrange(span.start as int, span.dot - 1));
        }
        Some(String::from_str(stem))
    } else {
        Some(String::from_str(p.substring_char(span.start, span.end)))
    }
}

/// Implements `extension`.
pub fn extension_of(p: &str) -> (r: Option<String>)
    ensures
        match r {
            Some(s) => extension(p@) == Some(s@),
            None => extension(p@) is None,
        },
{
    let span = locate_file_name(p);
    if span.start == span.end || is_dot_name(p, &span) {
        return None;
    }
    proof {
        lemma_last_dot_bounds(p@.subrange(span.start as int, span.end as int));
    }
    if span.dot > span.start + 1 {
        let ext = p.substring_char(span.dot, span.end);
        proof {
            assert(p@.subrange(span.start as int, span.end as int).skip(span.dot - span.start)
                =~= p@.subrange(span.dot as int, span.end as int));
        }
        Some(String::from_str(ext))
    } else {
        None
    }
}

/// Implements `with_extension`.
pub fn with_extension_of(p: &str, ext: &str) -> (r: String)
    ensures
        r@ == with_extension(p@, ext@),
{
    let span = locate_file_name(p);
    if span.start == span.end || is_dot_name(p, &span) {
        return String::from_str(p);
    }
    proof {
        lemma_last_dot_bounds(p@.subrange(span.start as int, span.end as int));
    }
    let keep = if span.dot > span.start + 1 {
        span.dot - 1
    } else {
        span.end
    };
    let mut r = String::from_str(p.substring_char(0, keep));
    proof {
        assert(p@.take(span.end as int).take(keep as int) =~= p@.subrange(0, keep as int));
    }
    if ext.unicode_len() > 0 {
        let dot = ".";
        proof {
            reveal_strlit(".");
        }
        r.append(dot);
        r.append(ext);
        proof {
            assert(r@ =~= p@.subrange(0, keep as int) + seq!['.'] + ext@);
        }
    }
    r
}

/// The first `n` characters of `s`, or all of them when there are fewer.
pub fn first_chars(s: &str, n: usize) -> (r: String)
    ensures
        r@ == s@.take(if n < s@.len() { n as int } else { s@.len() as int }),
{
    let len = s.unicode_len();
    let m = if n < len {
        n
    } else {
        len
    };
    proof {
        assert(s@.subrange(0, m as int) =~= s@.take(m as int));
    }
    String::from_str(s.substring_char(0, m))
}

} // verus!

verus! {

/// A file name made of plain characters: not empty, no separator and no dot.
pub open spec fn plain_name(s: Seq<char>) -> bool {
    s.len() > 0 && forall|i: int| 0 <= i < s.len() ==> s[i] != '/' && s[i] != '.'
}

/// The text after the last separator of `q + s`, when `s` holds no separator
/// and `q` is empty or ends with one, is `s`.
pub proof fn lemma_after_last_separator_suffix(q: Seq<char>, s: Seq<char>)
    requires
        no_separator(s),
        q.len() == 0 || q.last() == '/',
    ensures
        after_last_separator(q + s) == s,
    decreases s.len(),
{
    if s.len() == 0 {
        assert(q + s =~= q);
    } else {
        assert((q + s).drop_last() =~= q + s.drop_last());
        assert((q + s).last() == s.last());
        lemma_after_last_separator_suffix(q, s.drop_last());
        assert(s.drop_last().push(s.last()) =~= s);
    }
}

/// The last dot of `name + "." + ext`, for dotless `name` and `ext`, is the one
/// between them.
pub proof fn lemma_last_dot_before_extension(name: Seq<char>, ext: Seq<char>)
    requires
        forall|i: int| 0 <= i < ext.len() ==> ext[i] != '.',
    ensures
        last_dot(name + seq!['.'] + ext) == name.len(),
    decreases ext.len(),
{
    let s = name + seq!['.'] + ext;
    if ext.len() == 0 {
        assert(s.last() == '.');
    } else {
        assert(s.drop_last() =~= name + seq!['.'] + ext.drop_last());
        assert(s.last() == ext.last());
        lemma_last_dot_before_extension(name, ext.drop_last());
    }
}

/// A name without separators joined to a directory, followed by a dot and a
/// plain extension, has that name as its file stem and that extension.
pub proof fn lemma_stem_of_extended_file(base: Seq<char>, name: Seq<char>, ext: Seq<char>)
    requires
        name.len() > 0,
        no_separator(name),
        plain_name(ext),
    ensures
        file_stem(join_path(base, name) + seq!['.'] + ext) == Some(name),
        extension(join_path(base, name) + seq!['.'] + ext) == Some(ext),
{
    let q = if base.len() == 0 || base.last() == '/' {
        base
    } else {
        base + seq!['/']
    };
    assert(!is_absolute(name));
    let w = join_path(base, name) + seq!['.'] + ext;
    let nx = name + seq!['.'] + ext;
    assert(w =~= q + nx);
    assert(no_separator(nx));
    assert(w.last() == ext.last());
    assert(name_end(w) == w);
    lemma_after_last_separator_suffix(q, nx);
    assert(nx.len() > 2);
    assert(nx != seq!['.']);
    assert(nx != seq!['.', '.']) by {
        if nx == seq!['.', '.'] {
            assert(nx.len() == 2);
        }
    }
    assert(file_name(w) == Some(nx));
    lemma_last_dot_before_extension(name, ext);
    assert(nx.take(name.len() as int) =~= name);
    assert(nx.skip(name.len() as int + 1) =~= ext);
}

/// A plain file name joined to a directory and given a plain extension has
/// that name as its file stem.
pub proof fn lemma_stem_of_named_file(base: Seq<char>, name: Seq<char>, ext: Seq<char>)
    requires
        plain_name(name),
        plain_name(ext),
    ensures
        file_stem(with_extension(join_path(base, name), ext)) == Some(name),
{
    let p = join_path(base, name);
    let q = if base.len() == 0 || base.last() == '/' {
        base
    } else {
        base + seq!['/']
    };
    assert(!is_absolute(name));
    assert(p =~= q + name);
    assert(no_separator(name));
    assert(p.last() == name.last());
    assert(name_end(p) == p);
    lemma_after_last_separator_suffix(q, name);
    assert(name != seq!['.']) by {
        if name == seq!['.'] {
            assert(name[0] == '.');
        }
    }
    assert(name != seq!['.', '.']) by {
        if name == seq!['.', '.'] {
            assert(name[0] == '.');
        }
    }
    assert(file_name(p) == Some(name));
    lemma_last_dot_bounds(name);
    assert(last_dot(name) < 0) by {
        if last_dot(name) >= 0 {
            assert(name[last_dot(name)] == '.');
        }
    }
    assert(stem_of_name(name) == name);
    assert(p.take(p.len() as int) =~= p);
    let w = with_extension(p, ext);
    assert(w == p + seq!['.'] + ext);
    let nx = name + seq!['.'] + ext;
    assert(w =~= q + nx);
    assert(no_separator(nx));
    assert(w.last() == ext.last());
    assert(name_end(w) == w);
    lemma_after_last_separator_suffix(q, nx);
    assert(nx.len() > 2);
    assert(file_name(w) == Some(nx));
    lemma_last_dot_before_extension(name, ext);
    assert(nx.take(name.len() as int) =~= name);
}

} // verus!
