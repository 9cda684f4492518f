//! Version string comparison for package prune ordering.
//!
//! Strict semver 2.0 (`MAJOR.MINOR.PATCH[-pre][+build]`) when both sides
//! parse; otherwise alphanumeric runs compared numerically when both are
//! numbers, else lexicographically, with longer run lists sorting higher
//! when a common prefix is equal.

use vstd::prelude::*;
use crate::decimal::{all_digits, decimal_u64, lex_order, order_int};
use crate::decimal::{lex_order_chars, order_u64, parse_u64};
use std::cmp::Ordering;
use crate::text::{is_ascii_alnum, split_on, split_once, split_where, unicode_alphanumeric};
use crate::text::{
    chars_of, char_is_alphanumeric, find_char, slice_from, slice_range, split_chars, string_of,
};

verus! {

// ------------------------------------------------------------------------
// Semver model
// ------------------------------------------------------------------------

/// One prerelease identifier: numeric or alphanumeric.
pub enum PreIdModel {
    Num(u64),
    Alpha(Seq<char>),
}

/// A parsed `MAJOR.MINOR.PATCH[-pre]`; build metadata is not kept.
pub struct SemverModel {
    pub major: u64,
    pub minor: u64,
    pub patch: u64,
    pub pre: Seq<PreIdModel>,
}

/// Characters allowed in prerelease and build identifiers: `[0-9A-Za-z-]`.
pub open spec fn is_ident_char(c: char) -> bool {
    is_ascii_alnum(c) || c == '-'
}

/// A non-empty identifier of `[0-9A-Za-z-]`.
pub open spec fn is_ident(s: Seq<char>) -> bool {
    s.len() > 0 && forall|i: int| 0 <= i < s.len() ==> is_ident_char(#[trigger] s[i])
}

/// Whether every piece is an identifier.
pub open spec fn all_idents(parts: Seq<Seq<char>>) -> bool {
    forall|i: int| 0 <= i < parts.len() ==> is_ident(#[trigger] parts[i])
}

/// Strict numeric field: digits only, no leading zero, fits in `u64`.
pub open spec fn parse_num(s: Seq<char>) -> Option<u64> {
    if s.len() > 1 && s[0] == '0' {
        None
    } else {
        decimal_u64(s)
    }
}

/// One prerelease identifier: numeric when all digits (then strict), else
/// alphanumeric.
pub open spec fn parse_pre_id(s: Seq<char>) -> Option<PreIdModel> {
    if !is_ident(s) {
        None
    } else if all_digits(s) {
        match parse_num(s) {
            Some(n) => Some(PreIdModel::Num(n)),
            None => None,
        }
    } else {
        Some(PreIdModel::Alpha(s))
    }
}

/// All prerelease identifiers, or `None` when one is malformed.
pub open spec fn parse_pre_ids(parts: Seq<Seq<char>>) -> Option<Seq<PreIdModel>>
    decreases parts.len(),
{
    if parts.len() == 0 {
        Some(Seq::empty())
    } else {
        match (parse_pre_ids(parts.drop_last()), parse_pre_id(parts.last())) {
            (Some(ids), Some(id)) => Some(ids.push(id)),
            _ => None,
        }
    }
}

/// The semver reading of a version string, when it is strict semver.
pub open spec fn parse_semver(s: Seq<char>) -> Option<SemverModel> {
    let build_ok = match split_once(s, '+') {
        Some((_, build)) => all_idents(split_on(build, '.')),
        None => true,
    };
    let head = match split_once(s, '+') {
        Some((h, _)) => h,
        None => s,
    };
    let core = match split_once(head, '-') {
        Some((c, _)) => c,
        None => head,
    };
    let pre = match split_once(head, '-') {
        Some((_, p)) => parse_pre_ids(split_on(p, '.')),
        None => Some(Seq::empty()),
    };
    let fields = split_on(core, '.');
    if !build_ok || fields.len() != 3 {
        None
    } else {
        match (parse_num(fields[0]), parse_num(fields[1]), parse_num(fields[2]), pre) {
            (Some(major), Some(minor), Some(patch), Some(pre)) => Some(
                SemverModel { major, minor, patch, pre },
            ),
            _ => None,
        }
    }
}

// ------------------------------------------------------------------------
// Semver order
// ------------------------------------------------------------------------

/// Numeric identifiers sort before alphanumeric ones.
pub open spec fn pre_id_order(x: PreIdModel, y: PreIdModel) -> int {
    match (x, y) {
        (PreIdModel::Num(a), PreIdModel::Num(b)) => order_int(a as int, b as int),
        (PreIdModel::Num(_), PreIdModel::Alpha(_)) => -1,
        (PreIdModel::Alpha(_), PreIdModel::Num(_)) => 1,
        (PreIdModel::Alpha(a), PreIdModel::Alpha(b)) => lex_order(a, b),
    }
}

/// Prerelease lists: the first differing identifier decides, else the longer
/// list sorts higher.
pub open spec fn pre_order(a: Seq<PreIdModel>, b: Seq<PreIdModel>) -> int
    decreases a.len(),
{
    if a.len() == 0 || b.len() == 0 {
        order_int(a.len() as int, b.len() as int)
    } else if pre_id_order(a[0], b[0]) != 0 {
        pre_id_order(a[0], b[0])
    } else {
        pre_order(a.drop_first(), b.drop_first())
    }
}

/// Semver precedence: the numeric triple, then a release after any of its
/// prereleases, then the prerelease lists.
pub open spec fn semver_order(x: SemverModel, y: SemverModel) -> int {
    if x.major != y.major {
        order_int(x.major as int, y.major as int)
    } else if x.minor != y.minor {
        order_int(x.minor as int, y.minor as int)
    } else if x.patch != y.patch {
        order_int(x.patch as int, y.patch as int)
    } else if x.pre.len() == 0 && y.pre.len() == 0 {
        0
    } else if x.pre.len() == 0 {
        1
    } else if y.pre.len() == 0 {
        -1
    } else {
        pre_order(x.pre, y.pre)
    }
}

// ------------------------------------------------------------------------
// Fallback order on alphanumeric runs
// ------------------------------------------------------------------------

/// Separator predicate for alphanumeric runs.
pub open spec fn not_alphanumeric() -> spec_fn(char) -> bool {
    |c: char| !unicode_alphanumeric(c)
}

/// The non-empty pieces of a list.
pub open spec fn drop_empty(parts: Seq<Seq<char>>) -> Seq<Seq<char>>
    decreases parts.len(),
{
    if parts.len() == 0 {
        Seq::empty()
    } else if parts.last().len() == 0 {
        drop_empty(parts.drop_last())
    } else {
        drop_empty(parts.drop_last()).push(parts.last())
    }
}

/// The maximal runs of alphanumeric characters of `s`, in order.
pub open spec fn alnum_runs(s: Seq<char>) -> Seq<Seq<char>> {
    drop_empty(split_where(s, not_alphanumeric()))
}

/// Runs compared pairwise: numerically when both are numbers, else by text;
/// when a common prefix is equal, the longer list sorts higher.
pub open spec fn runs_order(a: Seq<Seq<char>>, b: Seq<Seq<char>>) -> int
    decreases a.len(),
{
    if a.len() == 0 || b.len() == 0 {
        order_int(a.len() as int, b.len() as int)
    } else {
        match (decimal_u64(a[0]), decimal_u64(b[0])) {
            (Some(x), Some(y)) => if x != y {
                order_int(x as int, y as int)
            } else {
                runs_order(a.drop_first(), b.drop_first())
            },
            _ => if a[0] != b[0] {
                lex_order(a[0], b[0])
            } else {
                runs_order(a.drop_first(), b.drop_first())
            },
        }
    }
}

/// The order of two version strings: semver precedence when both parse as
/// semver, else the order of their alphanumeric runs.
pub open spec fn version_order(a: Seq<char>, b: Seq<char>) -> int {
    match (parse_semver(a), parse_semver(b)) {
        (Some(x), Some(y)) => semver_order(x, y),
        _ => runs_order(alnum_runs(a), alnum_runs(b)),
    }
}

// ------------------------------------------------------------------------
// Executable semver
// ------------------------------------------------------------------------

enum PreId {
    Num(u64),
    Alpha(Vec<char>),
}

impl View for PreId {
    type V = PreIdModel;

    closed spec fn view(&self) -> PreIdModel {
        match self {
            PreId::Num(n) => PreIdModel::Num(*n),
            PreId::Alpha(s) => PreIdModel::Alpha(s@),
        }
    }
}

struct Semver {
    major: u64,
    minor: u64,
    patch: u64,
    pre: Vec<PreId>,
}

impl View for Semver {
    type V = SemverModel;

    closed spec fn view(&self) -> SemverModel {
        SemverModel {
            major: self.major,
            minor: self.minor,
            patch: self.patch,
            pre: self.pre@.map_values(|p: PreId| p@),
        }
    }
}

/// Whether `s` is a non-empty run of `[0-9A-Za-z-]`.
fn is_ident_chars(s: &[char]) -> (r: bool)
    ensures
        r == is_ident(s@),
{
    if s.len() == 0 {
        return false;
    }
    let mut i: usize = 0;
    while i < s.len()
        invariant
            i <= s.len(),
            forall|k: int| 0 <= k < i ==> is_ident_char(#[trigger] s@[k]),
        decreases s.len() - i,
    {
        let c = s[i];
        if !(('0' <= c && c <= '9') || ('a' <= c && c <= 'z') || ('A' <= c && c <= 'Z') || c
            == '-') {
            return false;
        }
        i = i + 1;
    }
    true
}

/// Whether every character is an ASCII digit.
fn all_digits_chars(s: &[char]) -> (r: bool)
    ensures
        r == all_digits(s@),
{
    let mut i: usize = 0;
    while i < s.len()
        invariant
            i <= s.len(),
            all_digits(s@.take(i as int)),
        decreases s.len() - i,
    {
        if !('0' <= s[i] && s[i] <= '9') {
            return false;
        }
        i = i + 1;
        assert forall|k: int| 0 <= k < i implies crate::text::is_digit(
            #[trigger] s@.take(i as int)[k],
        ) by {
            if k < i - 1 {
                assert(s@.take(i as int)[k] == s@.take(i - 1)[k]);
            }
        }
    }
    assert(s@.take(s@.len() as int) =~= s@);
    true
}

/// Strict numeric field.
fn parse_num_chars(s: &[char]) -> (r: Option<u64>)
    ensures
        r == parse_num(s@),
{
    if s.len() > 1 && s[0] == '0' {
        return None;
    }
    parse_u64(s)
}

fn parse_pre_id_chars(s: &[char]) -> (r: Option<PreId>)
    ensures
        match r {
            Some(id) => parse_pre_id(s@) == Some(id@),
            None => parse_pre_id(s@) is None,
        },
{
    if !is_ident_chars(s) {
        return None;
    }
    if all_digits_chars(s) {
        match parse_num_chars(s) {
            Some(n) => Some(PreId::Num(n)),
            None => None,
        }
    } else {
        let v = slice_from(s, 0);
        assert(v@ =~= s@);
        Some(PreId::Alpha(v))
    }
}

impl Semver {
    #[verifier::loop_isolation(false)]
    fn parse(s: &[char]) -> (r: Option<Semver>)
        ensures
            match r {
                Some(v) => parse_semver(s@) == Some(v@),
                None => parse_semver(s@) is None,
            },
    {
        let head: Vec<char>;
        match find_char(s, '+') {
            Some(i) => {
                let build = slice_from(s, i + 1);
                let ids = split_chars(&build, '.');
                let mut k: usize = 0;
                while k < ids.len()
                    invariant
                        k <= ids@.len(),
                        ids@.map_values(|p: Vec<char>| p@) == split_on(build@, '.'),
                        forall|j: int| 0 <= j < k ==> is_ident(#[trigger] split_on(build@, '.')[j]),
                    decreases ids.len() - k,
                {
                    if !is_ident_chars(&ids[k]) {
                        assert(split_on(build@, '.')[k as int] == ids@[k as int]@);
                        assert(build@ =~= s@.skip(i + 1));
                        assert(!all_idents(split_on(build@, '.')));
                        assert(split_once(s@, '+') == Some((s@.take(i as int), s@.skip(i + 1))));
                        return None;
                    }
                    assert(split_on(build@, '.')[k as int] == ids@[k as int]@);
                    k = k + 1;
                }
                head = slice_range(s, 0, i);
                assert(head@ =~= s@.take(i as int));
            },
            None => {
                head = slice_from(s, 0);
                assert(head@ =~= s@);
            },
        }
        let core: Vec<char>;
        let mut pre: Vec<PreId> = Vec::new();
        let ghost pre_parts: Seq<Seq<char>> = Seq::empty();
        match find_char(&head, '-') {
            Some(i) => {
                core = slice_range(&head, 0, i);
                assert(core@ =~= head@.take(i as int));
                let p = slice_from(&head, i + 1);
                let ids = split_chars(&p, '.');
                proof {
                    pre_parts = split_on(p@, '.');
                }
                let mut k: usize = 0;
                while k < ids.len()
                    invariant
                        k <= ids@.len(),
                        ids@.map_values(|q: Vec<char>| q@) == pre_parts,
                        parse_pre_ids(pre_parts.take(k as int)) == Some(
                            pre@.map_values(|q: PreId| q@),
                        ),
                    decreases ids.len() - k,
                {
                    assert(pre_parts.take(k + 1).drop_last() =~= pre_parts.take(k as int));
                    assert(pre_parts.take(k + 1).last() == ids@[k as int]@);
                    match parse_pre_id_chars(&ids[k]) {
                        Some(id) => {
                            pre.push(id);
                            assert(pre@.map_values(|q: PreId| q@) =~= parse_pre_ids(
                                pre_parts.take(k as int),
                            ).unwrap().push(id@));
                        },
                        None => {
                            proof {
                                lemma_pre_ids_none(pre_parts, k + 1);
                                assert(pre_parts.take(pre_parts.len() as int) =~= pre_parts);
                            }
                            return None;
                        },
                    }
                    k = k + 1;
                }
                assert(pre_parts.take(pre_parts.len() as int) =~= pre_parts);
            },
            None => {
                core = slice_from(&head, 0);
                assert(core@ =~= head@);
                assert(pre@.map_values(|q: PreId| q@) =~= Seq::<PreIdModel>::empty());
            },
        }
        let fields = split_chars(&core, '.');
        assert(fields@.len() == split_on(core@, '.').len());
        if fields.len() != 3 {
            return None;
        }
        assert(fields@[0]@ == split_on(core@, '.')[0]);
        assert(fields@[1]@ == split_on(core@, '.')[1]);
        assert(fields@[2]@ == split_on(core@, '.')[2]);
        let major = match parse_num_chars(&fields[0]) {
            Some(n) => n,
            None => {
                return None;
            },
        };
        let minor = match parse_num_chars(&fields[1]) {
            Some(n) => n,
            None => {
                return None;
            },
        };
        let patch = match parse_num_chars(&fields[2]) {
            Some(n) => n,
            None => {
                return None;
            },
        };
        let r = Semver { major, minor, patch, pre };
        assert(r@.pre == pre@.map_values(|q: PreId| q@));
        Some(r)
    }
}

/// Once a prefix of identifiers fails, the whole list fails.
proof fn lemma_pre_ids_none(parts: Seq<Seq<char>>, k: int)
    requires
        0 < k <= parts.len(),
        parse_pre_ids(parts.take(k)) is None,
    ensures
        parse_pre_ids(parts) is None,
    decreases parts.len() - k,
{
    if k < parts.len() {
        assert(parts.take(k + 1).drop_last() =~= parts.take(k));
        lemma_pre_ids_none(parts, k + 1);
    } else {
        assert(parts.take(k) =~= parts);
    }
}

// ------------------------------------------------------------------------
// Executable orders
// ------------------------------------------------------------------------

fn pre_id_order_exec(x: &PreId, y: &PreId) -> (r: i8)
    ensures
        -1 <= r <= 1,
        r as int == pre_id_order(x@, y@),
{
    match (x, y) {
        (PreId::Num(a), PreId::Num(b)) => order_u64(*a, *b),
        (PreId::Num(_), PreId::Alpha(_)) => -1,
        (PreId::Alpha(_), PreId::Num(_)) => 1,
        (PreId::Alpha(a), PreId::Alpha(b)) => lex_order_chars(a, b),
    }
}

fn pre_order_exec(a: &Vec<PreId>, b: &Vec<PreId>) -> (r: i8)
    ensures
        -1 <= r <= 1,
        r as int == pre_order(a@.map_values(|p: PreId| p@), b@.map_values(|p: PreId| p@)),
{
    let ghost av = a@.map_values(|p: PreId| p@);
    let ghost bv = b@.map_values(|p: PreId| p@);
    let mut i: usize = 0;
    assert(av.skip(0) =~= av);
    assert(bv.skip(0) =~= bv);
    while i < a.len() && i < b.len()
        invariant
            i <= a.len(),
            i <= b.len(),
            av == a@.map_values(|p: PreId| p@),
            bv == b@.map_values(|p: PreId| p@),
            pre_order(av, bv) == pre_order(av.skip(i as int), bv.skip(i as int)),
        decreases a.len() - i,
    {
        let o = pre_id_order_exec(&a[i], &b[i]);
        assert(av.skip(i as int)[0] == a@[i as int]@);
        assert(bv.skip(i as int)[0] == b@[i as int]@);
        if o != 0 {
            return o;
        }
        assert(av.skip(i as int).drop_first() =~= av.skip(i + 1));
        assert(bv.skip(i as int).drop_first() =~= bv.skip(i + 1));
        i = i + 1;
    }
    if a.len() == b.len() {
        0
    } else if i == a.len() {
        -1
    } else {
        1
    }
}

fn semver_order_exec(x: &Semver, y: &Semver) -> (r: i8)
    ensures
        -1 <= r <= 1,
        r as int == semver_order(x@, y@),
{
    if x.major != y.major {
        order_u64(x.major, y.major)
    } else if x.minor != y.minor {
        order_u64(x.minor, y.minor)
    } else if x.patch != y.patch {
        order_u64(x.patch, y.patch)
    } else if x.pre.len() == 0 && y.pre.len() == 0 {
        0
    } else if x.pre.len() == 0 {
        1
    } else if y.pre.len() == 0 {
        -1
    } else {
        pre_order_exec(&x.pre, &y.pre)
    }
}

/// The maximal alphanumeric runs of `s`.
fn alnum_runs_chars(s: &[char]) -> (r: Vec<Vec<char>>)
    ensures
        r@.map_values(|p: Vec<char>| p@) == alnum_runs(s@),
{
    let mut done: Vec<Vec<char>> = Vec::new();
    let mut cur: Vec<char> = Vec::new();
    let mut i: usize = 0;
    proof {
        assert(s@.take(0) =~= Seq::<char>::empty());
        assert(done@.map_values(|p: Vec<char>| p@) =~= Seq::<Seq<char>>::empty());
    }
    while i < s.len()
        invariant
            i <= s.len(),
            split_where(s@.take(i as int), not_alphanumeric()).len() >= 1,
            done@.map_values(|p: Vec<char>| p@) == drop_empty(
                split_where(s@.take(i as int), not_alphanumeric()).drop_last(),
            ),
            cur@ == split_where(s@.take(i as int), not_alphanumeric()).last(),
        decreases s.len() - i,
    {
        let ghost sp = split_where(s@.take(i as int), not_alphanumeric());
        let c = s[i];
        assert(s@.take(i + 1).drop_last() =~= s@.take(i as int));
        assert(s@.take(i + 1).last() == c);
        if char_is_alphanumeric(c) {
            cur.push(c);
            assert(sp.update(sp.len() - 1, sp.last().push(c)).drop_last() =~= sp.drop_last());
        } else {
            let ghost before = done@.map_values(|p: Vec<char>| p@);
            assert(sp.push(Seq::<char>::empty()).drop_last() =~= sp);
            assert(sp.drop_last().push(sp.last()) =~= sp);
            if cur.len() > 0 {
                done.push(cur);
                assert(done@.map_values(|p: Vec<char>| p@) =~= before.push(sp.last()));
            }
            cur = Vec::new();
            assert(cur@ =~= Seq::<char>::empty());
        }
        i = i + 1;
    }
    let ghost sp = split_where(s@.take(i as int), not_alphanumeric());
    assert(s@.take(i as int) =~= s@);
    assert(sp.drop_last().push(sp.last()) =~= sp);
    let ghost before = done@.map_values(|p: Vec<char>| p@);
    if cur.len() > 0 {
        done.push(cur);
        assert(done@.map_values(|p: Vec<char>| p@) =~= before.push(sp.last()));
    }
    done
}

fn runs_order_exec(a: &Vec<Vec<char>>, b: &Vec<Vec<char>>) -> (r: i8)
    ensures
        -1 <= r <= 1,
        r as int == runs_order(
            a@.map_values(|p: Vec<char>| p@),
            b@.map_values(|p: Vec<char>| p@),
        ),
{
    let ghost av = a@.map_values(|p: Vec<char>| p@);
    let ghost bv = b@.map_values(|p: Vec<char>| p@);
    let mut i: usize = 0;
    assert(av.skip(0) =~= av);
    assert(bv.skip(0) =~= bv);
    while i < a.len() && i < b.len()
        invariant
            i <= a.len(),
            i <= b.len(),
            av == a@.map_values(|p: Vec<char>| p@),
            bv == b@.map_values(|p: Vec<char>| p@),
            runs_order(av, bv) == runs_order(av.skip(i as int), bv.skip(i as int)),
        decreases a.len() - i,
    {
        assert(av.skip(i as int)[0] == a@[i as int]@);
        assert(bv.skip(i as int)[0] == b@[i as int]@);
        assert(av.skip(i as int).drop_first() =~= av.skip(i + 1));
        assert(bv.skip(i as int).drop_first() =~= bv.skip(i + 1));
        match (parse_u64(&a[i]), parse_u64(&b[i])) {
            (Some(x), Some(y)) => {
                if x != y {
                    return order_u64(x, y);
                }
            },
            _ => {
                let o = lex_order_chars(&a[i], &b[i]);
                if o != 0 {
                    proof {
                        crate::decimal::lemma_lex_order_basics(a@[i as int]@, b@[i as int]@);
                    }
                    return o;
                }
                proof {
                    crate::decimal::lemma_lex_order_basics(a@[i as int]@, b@[i as int]@);
                }
            },
        }
        i = i + 1;
    }
    if a.len() == b.len() {
        0
    } else if i == a.len() {
        -1
    } else {
        1
    }
}

/// Three-way order of two version strings as characters.
fn version_order_chars(a: &[char], b: &[char]) -> (r: i8)
    ensures
        -1 <= r <= 1,
        r as int == version_order(a@, b@),
{
    let sa = Semver::parse(a);
    let sb = Semver::parse(b);
    if let (Some(x), Some(y)) = (&sa, &sb) {
        return semver_order_exec(x, y);
    }
    let ra = alnum_runs_chars(a);
    let rb = alnum_runs_chars(b);
    runs_order_exec(&ra, &rb)
}

/// Three-way order of two version strings: -1, 0 or 1.
pub fn version_order_of(a: &str, b: &str) -> (r: i8)
    ensures
        -1 <= r <= 1,
        r as int == version_order(a@, b@),
{
    let ac = chars_of(a);
    let bc = chars_of(b);
    version_order_chars(&ac, &bc)
}

/// The number an `Ordering` stands for: -1, 0 or 1.
pub open spec fn ordering_value(o: Ordering) -> int {
    match o {
        Ordering::Less => -1,
        Ordering::Equal => 0,
        Ordering::Greater => 1,
    }
}

/// Split a version-like string into alphanumeric runs (digits or letters).
///
/// Non-alphanumeric separators are discarded. Empty input yields an empty list.
pub fn split_parts(s: &str) -> (parts: Vec<String>)
    ensures
        parts@.map_values(|p: String| p@) == alnum_runs(s@),
{
    let chars = chars_of(s);
    let runs = alnum_runs_chars(&chars);
    let mut parts: Vec<String> = Vec::new();
    let mut i: usize = 0;
    while i < runs.len()
        invariant
            i <= runs@.len(),
            parts@.map_values(|p: String| p@) == runs@.map_values(|p: Vec<char>| p@).take(
                i as int,
            ),
        decreases runs.len() - i,
    {
        let part = string_of(&runs[i]);
        let ghost before = parts@.map_values(|p: String| p@);
        parts.push(part);
        assert(parts@.map_values(|p: String| p@) =~= before.push(runs@[i as int]@));
        i = i + 1;
        assert(parts@.map_values(|p: String| p@) =~= runs@.map_values(|p: Vec<char>| p@).take(
            i as int,
        ));
    }
    assert(runs@.map_values(|p: Vec<char>| p@).take(runs@.len() as int) =~= runs@.map_values(
        |p: Vec<char>| p@,
    ));
    parts
}

/// Compare package version strings.
///
/// Prefer semver when both sides parse; otherwise compare alphanumeric parts
/// numerically when both are numbers, else lexicographically. Longer part
/// lists sort higher when a common prefix is equal.
pub fn compare_versions(a: &str, b: &str) -> (r: Ordering)
    ensures
        ordering_value(r) == version_order(a@, b@),
{
    let o = version_order_of(a, b);
    if o < 0 {
        Ordering::Less
    } else if o > 0 {
        Ordering::Greater
    } else {
        Ordering::Equal
    }
}

} // verus!
