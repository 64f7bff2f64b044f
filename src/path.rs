//! Paths read as `/`-separated components, the way `std::path::Path` reads
//! them on Unix: empty segments and inner `.` segments are skipped, and a
//! leading `.` stays as a component of its own.
use vstd::prelude::*;
use crate::text::chars_of;

verus! {

/// The directory name that anchors a file's depth.
pub open spec fn src_name() -> Seq<char> {
    seq!['s', 'r', 'c']
}

/// The directory name whose subtrees are never scanned.
pub open spec fn node_modules_name() -> Seq<char> {
    seq!['n', 'o', 'd', 'e', '_', 'm', 'o', 'd', 'u', 'l', 'e', 's']
}

/// Whether a segment becomes a component: it is not empty, and it is not `.`
/// unless it is the first segment of the path.
pub open spec fn keeps_segment(seg: Seq<char>, first: bool) -> bool {
    seg.len() > 0 && (seg != seq!['.'] || first)
}

/// Reading a path from the left: the components found so far, the segment
/// being read, and whether it is the first segment.
pub open spec fn component_scan(s: Seq<char>) -> (Seq<Seq<char>>, Seq<char>, bool)
    decreases s.len(),
{
    if s.len() == 0 {
        (Seq::empty(), Seq::empty(), true)
    } else {
        let (done, cur, first) = component_scan(s.drop_last());
        if s.last() == '/' {
            (if keeps_segment(cur, first) { done.push(cur) } else { done }, Seq::empty(), false)
        } else {
            (done, cur.push(s.last()), first)
        }
    }
}

/// The components of the path `s`, a root left out.
pub open spec fn path_components(s: Seq<char>) -> Seq<Seq<char>> {
    let (done, cur, first) = component_scan(s);
    if keeps_segment(cur, first) {
        done.push(cur)
    } else {
        done
    }
}

/// How many parent steps lead from the directory `dirs` up to the nearest
/// directory named `src` (that step not counted), or past the top of the path
/// where there is none.
pub open spec fn levels_below_src(dirs: Seq<Seq<char>>) -> nat
    decreases dirs.len(),
{
    if dirs.len() == 0 {
        1
    } else if dirs.last() == src_name() {
        0
    } else {
        1 + levels_below_src(dirs.drop_last())
    }
}

/// The depth of a file with path components `comps` below its nearest `src`
/// ancestor, or its distance from the top of the path where it has none.
pub open spec fn file_depth(comps: Seq<Seq<char>>) -> nat {
    if comps.len() == 0 {
        0
    } else {
        levels_below_src(comps.drop_last())
    }
}

/// Whether `name` ends with `ext` and holds at least one character before it.
pub open spec fn ends_with_after_stem(name: Seq<char>, ext: Seq<char>) -> bool {
    name.len() > ext.len() && name.subrange(name.len() - ext.len(), name.len() as int) == ext
}

/// Whether the last component of `comps` is a file name with extension `ts`
/// or `tsx`.
pub open spec fn is_script_file(comps: Seq<Seq<char>>) -> bool {
    comps.len() > 0 && (ends_with_after_stem(comps.last(), seq!['.', 't', 's'])
        || ends_with_after_stem(comps.last(), seq!['.', 't', 's', 'x']))
}

/// Splits a path into its components, as `path_components` states.
pub fn components(s: &Vec<char>) -> (r: Vec<Vec<char>>)
    ensures
        crate::text::char_views(r@) == path_components(s@),
        r@.len() <= s@.len(),
{
    let mut done: Vec<Vec<char>> = Vec::new();
    let mut cur: Vec<char> = Vec::new();
    let mut first = true;
    let mut i: usize = 0;
    while i < s.len()
        invariant
            i <= s.len(),
            component_scan(s@.take(i as int)) == (crate::text::char_views(done@), cur@, first),
            done@.len() + cur@.len() <= i,
        decreases s.len() - i,
    {
        let c = s[i];
        assert(s@.take(i + 1).drop_last() == s@.take(i as int));
        if c == '/' {
            let dot = cur.len() == 1 && cur[0] == '.';
            assert(dot == (cur@ == seq!['.'])) by {
                if cur@.len() == 1 && cur@[0] == '.' {
                    assert(cur@ == seq!['.']);
                }
            }
            if cur.len() > 0 && (!dot || first) {
                let ghost prev = done@;
                done.push(cur);
                assert(crate::text::char_views(done@) == crate::text::char_views(prev).push(
                    component_scan(s@.take(i as int)).1,
                ));
            }
            cur = Vec::new();
            first = false;
        } else {
            cur.push(c);
        }
        i = i + 1;
    }
    assert(s@.take(s.len() as int) == s@);
    let dot = cur.len() == 1 && cur[0] == '.';
    assert(dot == (cur@ == seq!['.'])) by {
        if cur@.len() == 1 && cur@[0] == '.' {
            assert(cur@ == seq!['.']);
        }
    }
    if cur.len() > 0 && (!dot || first) {
        let ghost prev = done@;
        done.push(cur);
        assert(crate::text::char_views(done@) == crate::text::char_views(prev).push(cur@));
    }
    done
}

/// Whether `v` spells `src`.
fn is_src(v: &Vec<char>) -> (r: bool)
    ensures
        r == (v@ == src_name()),
{
    let r = v.len() == 3 && v[0] == 's' && v[1] == 'r' && v[2] == 'c';
    if r {
        assert(v@ == src_name());
    }
    r
}

/// How many directory levels the file at `path` sits below its nearest
/// ancestor named `src`; the distance from the top of the path where no
/// ancestor has that name.
pub fn src_distance(path: &str) -> (r: usize)
    ensures
        r == file_depth(path_components(path@)),
{
    let chars = chars_of(path);
    let comps = components(&chars);
    let ghost views = crate::text::char_views(comps@);
    if comps.len() == 0 {
        return 0;
    }
    let mut i: usize = comps.len() - 1;
    let mut depth: usize = 0;
    assert(views.drop_last() == views.take(i as int));
    while i > 0 && !is_src(&comps[i - 1])
        invariant
            i < comps.len(),
            views == crate::text::char_views(comps@),
            depth + i < comps.len(),
            levels_below_src(views.drop_last()) == depth + levels_below_src(views.take(i as int)),
        decreases i,
    {
        assert(views.take(i as int).drop_last() == views.take(i - 1));
        depth = depth + 1;
        i = i - 1;
    }
    if i == 0 {
        depth + 1
    } else {
        depth
    }
}

/// Whether an entry named `name` is a `node_modules` directory, whose subtree
/// is left alone.
pub fn is_node_modules(name: &str) -> (r: bool)
    ensures
        r == (name@ == node_modules_name()),
{
    let v = chars_of(name);
    let want: Vec<char> = vec!['n', 'o', 'd', 'e', '_', 'm', 'o', 'd', 'u', 'l', 'e', 's'];
    if v.len() != want.len() {
        return false;
    }
    let mut i: usize = 0;
    while i < v.len()
        invariant
            v@ == name@,
            want@ == node_modules_name(),
            v.len() == want.len(),
            i <= v.len(),
            forall|k: int| 0 <= k < i ==> v@[k] == want@[k],
        decreases v.len() - i,
    {
        if v[i] != want[i] {
            return false;
        }
        i = i + 1;
    }
    assert(v@ == want@);
    true
}

/// Whether `v` ends with `ext` and holds at least one character before it.
fn ends_with_ext(v: &Vec<char>, ext: &Vec<char>) -> (r: bool)
    ensures
        r == ends_with_after_stem(v@, ext@),
{
    if v.len() <= ext.len() {
        return false;
    }
    let off = v.len() - ext.len();
    let mut i: usize = 0;
    while i < ext.len()
        invariant
            off + ext.len() == v.len(),
            i <= ext.len(),
            forall|k: int| 0 <= k < i ==> v@[off + k] == ext@[k],
        decreases ext.len() - i,
    {
        if v[off + i] != ext[i] {
            assert(v@.subrange(off as int, v.len() as int)[i as int] != ext@[i as int]);
            return false;
        }
        i = i + 1;
    }
    assert(v@.subrange(off as int, v.len() as int) == ext@);
    true
}

/// Whether the file at `path` is a script source: its name has the extension
/// `ts` or `tsx`.
pub fn is_ts_file(path: &str) -> (r: bool)
    ensures
        r == is_script_file(path_components(path@)),
{
    let chars = chars_of(path);
    let comps = components(&chars);
    if comps.len() == 0 {
        return false;
    }
    let name = &comps[comps.len() - 1];
    assert(name@ == crate::text::char_views(comps@).last());
    let ts: Vec<char> = vec!['.', 't', 's'];
    let tsx: Vec<char> = vec!['.', 't', 's', 'x'];
    ends_with_ext(name, &ts) || ends_with_ext(name, &tsx)
}

/// Stepping up from directory `dirs`, which lies `mid.len()` levels below a
/// directory named `src` with no other `src` in between, takes `mid.len()`
/// steps.
proof fn lemma_levels_below_src(above: Seq<Seq<char>>, mid: Seq<Seq<char>>)
    requires
        forall|k: int| 0 <= k < mid.len() ==> mid[k] != src_name(),
    ensures
        levels_below_src(above.push(src_name()) + mid) == mid.len(),
    decreases mid.len(),
{
    let dirs = above.push(src_name()) + mid;
    if mid.len() > 0 {
        assert(dirs.last() == mid.last());
        assert(dirs.drop_last() == above.push(src_name()) + mid.drop_last());
        lemma_levels_below_src(above, mid.drop_last());
    } else {
        assert(dirs == above.push(src_name()));
    }
}

/// A file whose directories below its nearest `src` ancestor are `mid` has
/// depth `mid.len()`; a file directly inside `src` has depth 0.
pub proof fn lemma_depth_below_src(above: Seq<Seq<char>>, mid: Seq<Seq<char>>, file: Seq<char>)
    requires
        forall|k: int| 0 <= k < mid.len() ==> mid[k] != src_name(),
    ensures
        file_depth(above.push(src_name()) + mid + seq![file]) == mid.len(),
{
    let comps = above.push(src_name()) + mid + seq![file];
    assert(comps.drop_last() == above.push(src_name()) + mid);
    lemma_levels_below_src(above, mid);
}

/// Stepping up from a directory with no `src` among `dirs` reaches past the
/// top of the path after `dirs.len() + 1` steps.
proof fn lemma_levels_without_src(dirs: Seq<Seq<char>>)
    requires
        forall|k: int| 0 <= k < dirs.len() ==> dirs[k] != src_name(),
    ensures
        levels_below_src(dirs) == dirs.len() + 1,
    decreases dirs.len(),
{
    if dirs.len() > 0 {
        lemma_levels_without_src(dirs.drop_last());
    }
}

/// A file with no ancestor named `src` has as its depth the number of
/// components of its path, which is its distance from the top of the path.
pub proof fn lemma_depth_without_src(comps: Seq<Seq<char>>)
    requires
        forall|k: int| 0 <= k < comps.len() - 1 ==> comps[k] != src_name(),
    ensures
        file_depth(comps) == comps.len(),
{
    if comps.len() > 0 {
        lemma_levels_without_src(comps.drop_last());
    }
}

} // verus!
