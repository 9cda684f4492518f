//! Pool path construction and path-safety helpers for package tooling.
//!
//! Paths are Unix paths held as text; their components follow the lexical
//! rules of `std::path::Path::components`: a leading `/` is the root, empty
//! segments and `.` segments vanish except a leading `.` of a relative path,
//! and `..` is the parent.

use vstd::prelude::*;
use crate::package_parse::has_separator;
use crate::text::{
    chars_eq, chars_of, contains_char, is_char, lemma_free_of_char, lemma_split_concat,
    lemma_split_free, lemma_split_len, push_chars, slice_from, split_chars, split_on, string_of,
};

verus! {

/// One lexical component of a path.
pub enum Component {
    RootDir,
    CurDir,
    ParentDir,
    Normal(Seq<char>),
}

/// The component a `/`-separated segment contributes, if any.
pub open spec fn segment_component(seg: Seq<char>, first: bool, rooted: bool) -> Option<Component> {
    if seg.len() == 0 {
        None
    } else if seg == seq!['.'] {
        if first && !rooted {
            Some(Component::CurDir)
        } else {
            None
        }
    } else if seg == seq!['.', '.'] {
        Some(Component::ParentDir)
    } else {
        Some(Component::Normal(seg))
    }
}

/// Components contributed by a list of segments.
pub open spec fn segments_components(segs: Seq<Seq<char>>, rooted: bool) -> Seq<Component>
    decreases segs.len(),
{
    if segs.len() == 0 {
        Seq::empty()
    } else {
        let prev = segments_components(segs.drop_last(), rooted);
        match segment_component(segs.last(), segs.len() == 1, rooted) {
            Some(c) => prev.push(c),
            None => prev,
        }
    }
}

/// Whether a path starts at the root.
pub open spec fn is_rooted(p: Seq<char>) -> bool {
    p.len() > 0 && p[0] == '/'
}

/// The components of a path.
pub open spec fn path_components(p: Seq<char>) -> Seq<Component> {
    let root: Seq<Component> = if is_rooted(p) {
        seq![Component::RootDir]
    } else {
        Seq::empty()
    };
    root + segments_components(split_on(p, '/'), is_rooted(p))
}

/// `base.join(name)` for a relative `name`: a separator is added unless
/// `base` is empty or already ends with one.
pub open spec fn join_path(base: Seq<char>, name: Seq<char>) -> Seq<char> {
    if base.len() == 0 {
        name
    } else if base.last() == '/' {
        base + name
    } else {
        base + seq!['/'] + name
    }
}

/// A name that is one plain path segment: non-empty, not `.` or `..`, and
/// free of `/` and `\`.
pub open spec fn is_safe_segment(name: Seq<char>) -> bool {
    name.len() > 0 && name != seq!['.'] && name != seq!['.', '.'] && !has_separator(name)
}

/// `candidate` lies strictly below `base`: the components of `base` are a
/// proper prefix of those of `candidate`.
pub open spec fn under_base(base: Seq<char>, candidate: Seq<char>) -> bool {
    let b = path_components(base);
    let c = path_components(candidate);
    c.len() > b.len() && c.take(b.len() as int) == b
}

/// Position of the last occurrence of `c`.
pub open spec fn last_index_of(s: Seq<char>, c: char) -> Option<int>
    decreases s.len(),
{
    if s.len() == 0 {
        None
    } else if s.last() == c {
        Some(s.len() - 1)
    } else {
        last_index_of(s.drop_last(), c)
    }
}

/// `Path::file_name`: the last component when it is a plain name.
pub open spec fn file_name(p: Seq<char>) -> Option<Seq<char>> {
    let comps = path_components(p);
    if comps.len() > 0 && comps.last() is Normal {
        Some(comps.last()->Normal_0)
    } else {
        None
    }
}

/// `Path::extension`: the text after the last `.` of the file name, unless
/// that dot starts the name.
pub open spec fn extension(p: Seq<char>) -> Option<Seq<char>> {
    match file_name(p) {
        Some(f) => match last_index_of(f, '.') {
            Some(i) => if i > 0 {
                Some(f.skip(i + 1))
            } else {
                None
            },
            None => None,
        },
        None => None,
    }
}

// ------------------------------------------------------------------------
// Executable components
// ------------------------------------------------------------------------

enum Comp {
    RootDir,
    CurDir,
    ParentDir,
    Normal(Vec<char>),
}

impl View for Comp {
    type V = Component;

    closed spec fn view(&self) -> Component {
        match self {
            Comp::RootDir => Component::RootDir,
            Comp::CurDir => Component::CurDir,
            Comp::ParentDir => Component::ParentDir,
            Comp::Normal(s) => Component::Normal(s@),
        }
    }
}

fn comp_eq(a: &Comp, b: &Comp) -> (r: bool)
    ensures
        r == (a@ == b@),
{
    match (a, b) {
        (Comp::RootDir, Comp::RootDir) => true,
        (Comp::CurDir, Comp::CurDir) => true,
        (Comp::ParentDir, Comp::ParentDir) => true,
        (Comp::Normal(x), Comp::Normal(y)) => chars_eq(x, y),
        _ => false,
    }
}

fn components(p: &[char]) -> (r: Vec<Comp>)
    ensures
        r@.map_values(|c: Comp| c@) == path_components(p@),
{
    let rooted = p.len() > 0 && p[0] == '/';
    let mut r: Vec<Comp> = Vec::new();
    if rooted {
        r.push(Comp::RootDir);
    }
    let segs = split_chars(p, '/');
    let ghost views = segs@.map_values(|s: Vec<char>| s@);
    let ghost root: Seq<Component> = if rooted {
        seq![Component::RootDir]
    } else {
        Seq::empty()
    };
    assert(r@.map_values(|c: Comp| c@) =~= root);
    assert(views.take(0) =~= Seq::<Seq<char>>::empty());
    let mut i: usize = 0;
    while i < segs.len()
        invariant
            i <= segs@.len(),
            views == segs@.map_values(|s: Vec<char>| s@),
            views == split_on(p@, '/'),
            rooted == is_rooted(p@),
            r@.map_values(|c: Comp| c@) == root + segments_components(
                views.take(i as int),
                rooted,
            ),
        decreases segs.len() - i,
    {
        let seg = &segs[i];
        assert(views.take(i + 1).drop_last() =~= views.take(i as int));
        assert(views.take(i + 1).last() == seg@);
        let ghost before = r@.map_values(|c: Comp| c@);
        if seg.len() == 0 {
        } else if seg.len() == 1 && seg[0] == '.' {
            assert(seg@ =~= seq!['.']);
            if i == 0 && !rooted {
                r.push(Comp::CurDir);
                assert(r@.map_values(|c: Comp| c@) =~= before.push(Component::CurDir));
            }
        } else if seg.len() == 2 && seg[0] == '.' && seg[1] == '.' {
            assert(seg@ =~= seq!['.', '.']);
            r.push(Comp::ParentDir);
            assert(r@.map_values(|c: Comp| c@) =~= before.push(Component::ParentDir));
        } else {
            assert(seg@ != seq!['.']);
            assert(seg@ != seq!['.', '.']);
            r.push(Comp::Normal(slice_from(seg, 0)));
            assert(seg@.skip(0) =~= seg@);
            assert(r@.map_values(|c: Comp| c@) =~= before.push(Component::Normal(seg@)));
        }
        i = i + 1;
    }
    assert(views.take(views.len() as int) =~= views);
    r
}

fn components_of_str(p: &str) -> (r: Vec<Comp>)
    ensures
        r@.map_values(|c: Comp| c@) == path_components(p@),
{
    let chars = chars_of(p);
    components(&chars)
}

/// Whether `segment` is one plain path segment.
fn safe_segment_chars(name: &[char]) -> (r: bool)
    ensures
        r == is_safe_segment(name@),
{
    if name.len() == 0 {
        return false;
    }
    if name.len() == 1 && name[0] == '.' {
        assert(name@ =~= seq!['.']);
        return false;
    }
    if name.len() == 2 && name[0] == '.' && name[1] == '.' {
        assert(name@ =~= seq!['.', '.']);
        return false;
    }
    if contains_char(name, '/') || contains_char(name, '\\') {
        return false;
    }
    assert(name@ != seq!['.']);
    assert(name@ != seq!['.', '.']);
    true
}

/// `base.join(name)` for a relative `name`.
fn join_chars_path(base: &[char], name: &[char]) -> (r: String)
    ensures
        r@ == join_path(base@, name@),
{
    let mut r = string_of(base);
    if base.len() > 0 && base[base.len() - 1] != '/' {
        r.push('/');
    }
    push_chars(&mut r, name);
    r
}

/// Join `filename` under `base` only if `filename` is a single safe segment.
///
/// Rejects empty names, `.`, `..`, absolute paths, and any name containing a
/// path separator. On success the result is always a child of `base`.
pub fn safe_join_under(base: &str, filename: &str) -> (r: Option<String>)
    ensures
        match r {
            Some(p) => is_safe_segment(filename@) && p@ == join_path(base@, filename@),
            None => !is_safe_segment(filename@),
        },
{
    let name = chars_of(filename);
    if !safe_segment_chars(&name) {
        return None;
    }
    let b = chars_of(base);
    Some(join_chars_path(&b, &name))
}

/// True if `candidate` is lexically under `base` (prefix of components).
pub fn is_under_base(base: &str, candidate: &str) -> (r: bool)
    ensures
        r == under_base(base@, candidate@),
{
    let b = components_of_str(base);
    let c = components_of_str(candidate);
    let ghost bv = b@.map_values(|x: Comp| x@);
    let ghost cv = c@.map_values(|x: Comp| x@);
    if c.len() <= b.len() {
        return false;
    }
    let mut i: usize = 0;
    while i < b.len()
        invariant
            i <= b@.len() < c@.len(),
            bv == b@.map_values(|x: Comp| x@),
            cv == c@.map_values(|x: Comp| x@),
            bv == path_components(base@),
            cv == path_components(candidate@),
            cv.take(i as int) == bv.take(i as int),
        decreases b.len() - i,
    {
        if !comp_eq(&c[i], &b[i]) {
            assert(cv.take(bv.len() as int)[i as int] == cv[i as int]);
            assert(cv.take(bv.len() as int)[i as int] != bv[i as int]);
            assert(cv.take(bv.len() as int) != bv);
            return false;
        }
        i = i + 1;
        assert(cv.take(i as int) =~= cv.take(i - 1).push(cv[i - 1]));
        assert(bv.take(i as int) =~= bv.take(i - 1).push(bv[i - 1]));
    }
    assert(bv.take(bv.len() as int) =~= bv);
    true
}

/// `Path::file_name`: the last component of a path when it is a plain name.
pub fn file_name_of(path: &str) -> (r: Option<String>)
    ensures
        match r {
            Some(n) => file_name(path@) == Some(n@),
            None => file_name(path@) is None,
        },
{
    let comps = components_of_str(path);
    let ghost cv = comps@.map_values(|x: Comp| x@);
    if comps.len() == 0 {
        return None;
    }
    let last = &comps[comps.len() - 1];
    assert(cv.last() == last@);
    match last {
        Comp::Normal(f) => Some(string_of(f)),
        _ => None,
    }
}

/// True when `path` is a regular-looking `.rpm` file path (by extension).
pub fn is_rpm_path(path: &str) -> (r: bool)
    ensures
        r == (extension(path@) == Some("rpm"@)),
{
    let comps = components_of_str(path);
    let ghost cv = comps@.map_values(|x: Comp| x@);
    if comps.len() == 0 {
        return false;
    }
    let last = &comps[comps.len() - 1];
    assert(cv.last() == last@);
    match last {
        Comp::Normal(f) => {
            let mut j: usize = f.len();
            assert(f@.take(j as int) =~= f@);
            while j > 0 && f[j - 1] != '.'
                invariant
                    j <= f@.len(),
                    last_index_of(f@, '.') == last_index_of(f@.take(j as int), '.'),
                decreases j,
            {
                assert(f@.take(j as int).drop_last() =~= f@.take(j - 1));
                j = j - 1;
            }
            if j == 0 {
                assert(f@.take(0) =~= Seq::<char>::empty());
                return false;
            }
            assert(last_index_of(f@.take(j as int), '.') == Some(j - 1));
            if j == 1 {
                return false;
            }
            let ext = slice_from(f, j);
            let want = chars_of("rpm");
            chars_eq(&ext, &want)
        },
        _ => false,
    }
}

/// Destination for a swept `.deb` under the apt pool.
pub fn deb_pool_dest(filename: &str) -> (r: Option<String>)
    ensures
        match r {
            Some(p) => is_safe_segment(filename@) && p@ == join_path("apt/pool/main"@, filename@),
            None => !is_safe_segment(filename@),
        },
{
    safe_join_under("apt/pool/main", filename)
}

/// Destination for a swept `.rpm` under the rpm pool.
pub fn rpm_pool_dest(filename: &str) -> (r: Option<String>)
    ensures
        match r {
            Some(p) => is_safe_segment(filename@) && p@ == join_path("rpm/pool"@, filename@),
            None => !is_safe_segment(filename@),
        },
{
    safe_join_under("rpm/pool", filename)
}

/// Map a package file extension to its pool destination path.
///
/// Returns `None` for unknown extensions.
pub fn package_sweep_dest(filename: &str, ext: &str) -> (r: Option<String>)
    ensures
        match r {
            Some(p) => is_safe_segment(filename@) && ((ext@ == "deb"@ && p@ == join_path(
                "apt/pool/main"@,
                filename@,
            )) || (ext@ != "deb"@ && ext@ == "rpm"@ && p@ == join_path("rpm/pool"@, filename@))),
            None => (ext@ != "deb"@ && ext@ != "rpm"@) || !is_safe_segment(filename@),
        },
{
    let e = chars_of(ext);
    let deb = chars_of("deb");
    let rpm = chars_of("rpm");
    if chars_eq(&e, &deb) {
        deb_pool_dest(filename)
    } else if chars_eq(&e, &rpm) {
        rpm_pool_dest(filename)
    } else {
        None
    }
}

/// Whether a path is the current directory: its only component is `.`
/// (so `.`, `./` and `./.` all are).
pub open spec fn is_current_dir(p: Seq<char>) -> bool {
    path_components(p) == seq![Component::CurDir]
}

/// Where the sweep moves a loose file of `root`: its pool destination,
/// taken as is when `root` is the current directory and joined under
/// `root` otherwise.
pub open spec fn sweep_destination(root: Seq<char>, filename: Seq<char>, ext: Seq<char>) -> Option<
    Seq<char>,
> {
    let dest = if ext == "deb"@ {
        join_path("apt/pool/main"@, filename)
    } else {
        join_path("rpm/pool"@, filename)
    };
    if !is_safe_segment(filename) || (ext != "deb"@ && ext != "rpm"@) {
        None
    } else if is_current_dir(root) {
        Some(dest)
    } else {
        Some(join_path(root, dest))
    }
}

/// Destination of a loose package file found directly in `root`, or `None`
/// when it is no `.deb`/`.rpm` or its name is not one safe segment.
pub fn sweep_target(root: &str, filename: &str, ext: &str) -> (r: Option<String>)
    ensures
        match r {
            Some(p) => sweep_destination(root@, filename@, ext@) == Some(p@),
            None => sweep_destination(root@, filename@, ext@) is None,
        },
{
    let dest = match package_sweep_dest(filename, ext) {
        Some(d) => d,
        None => return None,
    };
    let comps = components_of_str(root);
    let ghost cv = comps@.map_values(|x: Comp| x@);
    let current = comps.len() == 1 && match &comps[0] {
        Comp::CurDir => true,
        _ => false,
    };
    proof {
        if current {
            assert(cv =~= seq![Component::CurDir]);
        } else if cv.len() == 1 {
            assert(cv[0] == comps@[0]@);
        }
    }
    if current {
        Some(dest)
    } else {
        let b = chars_of(root);
        let d = chars_of(dest.as_str());
        Some(join_chars_path(&b, &d))
    }
}

proof fn lemma_segments_push(segs: Seq<Seq<char>>, name: Seq<char>, rooted: bool)
    requires
        segs.len() >= 1,
        is_safe_segment(name),
    ensures
        segments_components(segs.push(name), rooted) == segments_components(segs, rooted).push(
            Component::Normal(name),
        ),
{
    assert(segs.push(name).drop_last() =~= segs);
}

/// A safe segment joined under any base is a child of that base: its
/// components are those of the base plus the segment itself.
pub proof fn law_safe_join_is_child(base: Seq<char>, name: Seq<char>)
    requires
        is_safe_segment(name),
    ensures
        path_components(join_path(base, name)) == path_components(base).push(
            Component::Normal(name),
        ),
        under_base(base, join_path(base, name)),
{
    lemma_free_of_char(name, '/');
    lemma_split_free(name, is_char('/'));
    let j = join_path(base, name);
    if base.len() == 0 {
        assert(!is_rooted(name)) by {
            if is_rooted(name) {
                assert(name.contains('/'));
            }
        }
        let empty_segs = Seq::<Seq<char>>::empty();
        assert(seq![name].drop_last() =~= empty_segs);
        assert(seq![Seq::<char>::empty()].drop_last() =~= empty_segs);
        assert(split_on(base, '/') == seq![Seq::<char>::empty()]);
        assert(segments_components(empty_segs, false) =~= Seq::<Component>::empty());
        assert(seq![Seq::<char>::empty()].last().len() == 0);
        assert(segment_component(Seq::<char>::empty(), true, false) is None);
        assert(segments_components(seq![Seq::<char>::empty()], false) =~= Seq::<Component>::empty());
        assert(path_components(base) =~= Seq::<Component>::empty());
        assert(split_on(j, '/') == seq![name]);
        assert(segments_components(seq![name], false) =~= seq![Component::Normal(name)]);
        assert(path_components(j) =~= seq![Component::Normal(name)]);
    } else if base.last() == '/' {
        let init = base.drop_last();
        assert(base =~= init.push('/'));
        assert(j =~= init.push('/') + name);
        lemma_split_concat(init, '/', name, is_char('/'));
        lemma_split_len(init, is_char('/'));
        assert(split_on(base, '/') == split_on(init, '/').push(Seq::<char>::empty()));
        assert(split_on(base, '/').drop_last() =~= split_on(init, '/'));
        assert(split_on(j, '/') =~= split_on(init, '/').push(name));
        assert(is_rooted(j) == is_rooted(base));
        lemma_segments_push(split_on(init, '/'), name, is_rooted(base));
    } else {
        assert(j =~= base.push('/') + name);
        lemma_split_concat(base, '/', name, is_char('/'));
        lemma_split_len(base, is_char('/'));
        assert(split_on(j, '/') =~= split_on(base, '/').push(name));
        assert(is_rooted(j) == is_rooted(base));
        lemma_segments_push(split_on(base, '/'), name, is_rooted(base));
    }
    let b = path_components(base);
    let c = path_components(j);
    assert(c.take(b.len() as int) =~= b);
}

/// Every sweep destination lies in its pool: a `.deb` strictly below
/// `apt/pool/main`, an `.rpm` strictly below `rpm/pool`.
pub proof fn law_sweep_dest_in_pool(filename: Seq<char>, ext: Seq<char>)
    requires
        is_safe_segment(filename),
        ext == "deb"@ || ext == "rpm"@,
    ensures
        ext == "deb"@ ==> under_base("apt/pool/main"@, join_path("apt/pool/main"@, filename)),
        ext == "rpm"@ ==> under_base("rpm/pool"@, join_path("rpm/pool"@, filename)),
{
    law_safe_join_is_child("apt/pool/main"@, filename);
    law_safe_join_is_child("rpm/pool"@, filename);
}

proof fn lemma_join_assoc(base: Seq<char>, x: Seq<char>, y: Seq<char>)
    requires
        x.len() > 0,
        x.last() != '/',
    ensures
        join_path(join_path(base, x), y) == join_path(base, x + seq!['/'] + y),
{
    if base.len() == 0 {
        assert(join_path(base, x) == x);
    } else if base.last() == '/' {
        let bx = base + x;
        assert(bx.last() == x.last());
        assert(join_path(bx, y) =~= base + (x + seq!['/'] + y));
    } else {
        let bx = base + seq!['/'] + x;
        assert(bx.last() == x.last());
        assert(join_path(bx, y) =~= base + seq!['/'] + (x + seq!['/'] + y));
    }
}

proof fn lemma_plain_segment(seg: Seq<char>)
    requires
        seg.len() > 1,
        forall|i: int| 0 <= i < seg.len() ==> 'a' <= #[trigger] seg[i] <= 'z',
    ensures
        is_safe_segment(seg),
{
    assert(seg[0] != '.');
    assert(!seg.contains('/')) by {
        if seg.contains('/') {
            let k = choose|k: int| 0 <= k < seg.len() && #[trigger] seg[k] == '/';
        }
    }
    assert(!seg.contains('\\')) by {
        if seg.contains('\\') {
            let k = choose|k: int| 0 <= k < seg.len() && #[trigger] seg[k] == '\\';
        }
    }
}

/// A loose file is swept below the root it was found in: with `.` as the
/// root its destination is the pool path itself; with any other root it is
/// the pool path joined under the root, so that its components are the
/// root's followed by the pool's (`apt`, `pool`, `main` for a `.deb`,
/// `rpm`, `pool` for an `.rpm`) and the file name.
pub proof fn law_sweep_lands_under_root(root: Seq<char>, filename: Seq<char>, ext: Seq<char>)
    requires
        is_safe_segment(filename),
        ext == "deb"@ || ext == "rpm"@,
    ensures
        ({
            let pool = if ext == "deb"@ {
                "apt/pool/main"@
            } else {
                "rpm/pool"@
            };
            let pool_parts = if ext == "deb"@ {
                seq![
                    Component::Normal("apt"@),
                    Component::Normal("pool"@),
                    Component::Normal("main"@),
                ]
            } else {
                seq![Component::Normal("rpm"@), Component::Normal("pool"@)]
            };
            let dest = join_path(pool, filename);
            &&& path_components(root) == seq![Component::CurDir] ==> sweep_destination(
                root,
                filename,
                ext,
            ) == Some(dest)
            &&& path_components(root) != seq![Component::CurDir] ==> sweep_destination(
                root,
                filename,
                ext,
            ) == Some(join_path(root, dest)) && path_components(join_path(root, dest))
                == path_components(root) + pool_parts.push(Component::Normal(filename))
                && under_base(root, join_path(root, dest))
        }),
{
    reveal_strlit("apt/pool/main");
    reveal_strlit("rpm/pool");
    reveal_strlit("apt");
    reveal_strlit("pool");
    reveal_strlit("main");
    reveal_strlit("rpm");
    reveal_strlit("deb");
    let apt = "apt"@;
    let pool = "pool"@;
    let main = "main"@;
    let rpm = "rpm"@;
    let sl = seq!['/'];
    lemma_plain_segment(apt);
    lemma_plain_segment(pool);
    lemma_plain_segment(main);
    lemma_plain_segment(rpm);
    if ext == "deb"@ {
        let p = "apt/pool/main"@;
        assert(p =~= apt + sl + pool + sl + main);
        let dest = join_path(p, filename);
        assert(dest =~= apt + sl + (pool + sl + (main + sl + filename)));
        lemma_join_assoc(root, apt, pool + sl + (main + sl + filename));
        let r1 = join_path(root, apt);
        lemma_join_assoc(r1, pool, main + sl + filename);
        let r2 = join_path(r1, pool);
        lemma_join_assoc(r2, main, filename);
        let r3 = join_path(r2, main);
        assert(join_path(root, dest) == join_path(r3, filename));
        law_safe_join_is_child(root, apt);
        law_safe_join_is_child(r1, pool);
        law_safe_join_is_child(r2, main);
        law_safe_join_is_child(r3, filename);
        let b = path_components(root);
        let c = path_components(join_path(root, dest));
        assert(c =~= b + seq![
            Component::Normal(apt),
            Component::Normal(pool),
            Component::Normal(main),
        ].push(Component::Normal(filename)));
        assert(c.take(b.len() as int) =~= b);
    } else {
        assert(ext == "rpm"@);
        assert(ext != "deb"@) by {
            assert(ext[0] != "deb"@[0]);
        }
        let p = "rpm/pool"@;
        assert(p =~= rpm + sl + pool);
        let dest = join_path(p, filename);
        assert(dest =~= rpm + sl + (pool + sl + filename));
        lemma_join_assoc(root, rpm, pool + sl + filename);
        let r1 = join_path(root, rpm);
        lemma_join_assoc(r1, pool, filename);
        let r2 = join_path(r1, pool);
        assert(join_path(root, dest) == join_path(r2, filename));
        law_safe_join_is_child(root, rpm);
        law_safe_join_is_child(r1, pool);
        law_safe_join_is_child(r2, filename);
        let b = path_components(root);
        let c = path_components(join_path(root, dest));
        assert(c =~= b + seq![Component::Normal(rpm), Component::Normal(pool)].push(
            Component::Normal(filename),
        ));
        assert(c.take(b.len() as int) =~= b);
    }
}

} // verus!
