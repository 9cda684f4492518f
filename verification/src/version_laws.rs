//! Laws of the version order: it is reflexive and antisymmetric on every
//! pair of strings, it agrees with the numeric order on `X.Y.Z` strings, it
//! is transitive among semver strings, alphanumeric prereleases of one
//! version order by their text, and the alphanumeric runs it compares are
//! what `split_parts` promises.

use vstd::prelude::*;
use crate::decimal::{
    all_digits, decimal, lemma_decimal_roundtrip, lemma_decimal_u64, lemma_lex_order_basics,
    lemma_lex_order_trans, lex_order, order_int,
};
use crate::text::{
    free_of, index_of, is_char, join_with, lemma_free_of_char, lemma_index_of, lemma_split_free,
    lemma_split_join, split_on, split_where, unicode_alphanumeric,
};
use crate::version_cmp::{
    alnum_runs, drop_empty, is_ident, is_ident_char, not_alphanumeric, parse_num, parse_pre_id,
    parse_pre_ids,
    parse_semver, pre_id_order, pre_order, runs_order, semver_order, version_order, PreIdModel,
    SemverModel,
};

verus! {

proof fn lemma_pre_id_basics(x: PreIdModel, y: PreIdModel)
    ensures
        pre_id_order(x, x) == 0,
        pre_id_order(x, y) == -pre_id_order(y, x),
        pre_id_order(x, y) == 0 ==> x == y,
        -1 <= pre_id_order(x, y) <= 1,
{
    match (x, y) {
        (PreIdModel::Alpha(a), PreIdModel::Alpha(b)) => {
            lemma_lex_order_basics(a, b);
            lemma_lex_order_basics(a, a);
        },
        (PreIdModel::Alpha(a), _) => {
            lemma_lex_order_basics(a, a);
        },
        (_, _) => {},
    }
}

proof fn lemma_pre_id_trans(x: PreIdModel, y: PreIdModel, z: PreIdModel)
    requires
        pre_id_order(x, y) <= 0,
        pre_id_order(y, z) <= 0,
    ensures
        pre_id_order(x, z) <= 0,
{
    match (x, y, z) {
        (PreIdModel::Alpha(a), PreIdModel::Alpha(b), PreIdModel::Alpha(c)) => {
            lemma_lex_order_trans(a, b, c);
        },
        _ => {},
    }
}

proof fn lemma_pre_order_basics(a: Seq<PreIdModel>, b: Seq<PreIdModel>)
    ensures
        pre_order(a, a) == 0,
        pre_order(a, b) == -pre_order(b, a),
        pre_order(a, b) == 0 ==> a == b,
    decreases a.len(),
{
    if a.len() > 0 {
        lemma_pre_id_basics(a[0], a[0]);
        lemma_pre_order_basics(a.drop_first(), a.drop_first());
        if b.len() > 0 {
            lemma_pre_id_basics(a[0], b[0]);
            lemma_pre_order_basics(a.drop_first(), b.drop_first());
            if pre_order(a, b) == 0 {
                assert(a =~= seq![a[0]] + a.drop_first());
                assert(b =~= seq![b[0]] + b.drop_first());
            }
        }
    } else if b.len() == 0 {
        assert(a =~= b);
    }
}

proof fn lemma_pre_order_trans(a: Seq<PreIdModel>, b: Seq<PreIdModel>, c: Seq<PreIdModel>)
    requires
        pre_order(a, b) <= 0,
        pre_order(b, c) <= 0,
    ensures
        pre_order(a, c) <= 0,
    decreases a.len(),
{
    if a.len() > 0 && b.len() > 0 && c.len() > 0 {
        lemma_pre_id_basics(a[0], b[0]);
        lemma_pre_id_basics(b[0], c[0]);
        lemma_pre_id_basics(a[0], c[0]);
        lemma_pre_id_trans(a[0], b[0], c[0]);
        if pre_id_order(a[0], c[0]) == 0 {
            lemma_pre_id_basics(b[0], a[0]);
            if pre_id_order(a[0], b[0]) == 0 && pre_id_order(b[0], c[0]) == 0 {
                lemma_pre_order_trans(a.drop_first(), b.drop_first(), c.drop_first());
            } else {
                // a[0] == c[0], so a[0] <= b[0] <= a[0] forces equality
                lemma_pre_id_trans(b[0], c[0], a[0]);
            }
        }
    }
}

proof fn lemma_semver_basics(x: SemverModel, y: SemverModel)
    ensures
        semver_order(x, x) == 0,
        semver_order(x, y) == -semver_order(y, x),
{
    lemma_pre_order_basics(x.pre, x.pre);
    lemma_pre_order_basics(x.pre, y.pre);
}

/// Semver precedence is transitive.
pub proof fn lemma_semver_trans(x: SemverModel, y: SemverModel, z: SemverModel)
    requires
        semver_order(x, y) <= 0,
        semver_order(y, z) <= 0,
    ensures
        semver_order(x, z) <= 0,
{
    if x.major == y.major && y.major == z.major && x.minor == y.minor && y.minor == z.minor
        && x.patch == y.patch && y.patch == z.patch && x.pre.len() > 0 && y.pre.len() > 0
        && z.pre.len() > 0 {
        lemma_pre_order_trans(x.pre, y.pre, z.pre);
    }
}

proof fn lemma_runs_order_basics(a: Seq<Seq<char>>, b: Seq<Seq<char>>)
    ensures
        runs_order(a, a) == 0,
        runs_order(a, b) == -runs_order(b, a),
    decreases a.len(),
{
    if a.len() > 0 {
        lemma_runs_order_basics(a.drop_first(), a.drop_first());
        if b.len() > 0 {
            lemma_runs_order_basics(a.drop_first(), b.drop_first());
            lemma_lex_order_basics(a[0], b[0]);
        }
    }
}

/// Every version string compares equal to itself.
pub proof fn law_version_order_reflexive(a: Seq<char>)
    ensures
        version_order(a, a) == 0,
{
    lemma_runs_order_basics(alnum_runs(a), alnum_runs(a));
    if let Some(x) = parse_semver(a) {
        lemma_semver_basics(x, x);
    }
}

/// Swapping the two versions reverses the order.
pub proof fn law_version_order_antisymmetric(a: Seq<char>, b: Seq<char>)
    ensures
        version_order(a, b) == -version_order(b, a),
{
    lemma_runs_order_basics(alnum_runs(a), alnum_runs(b));
    if let (Some(x), Some(y)) = (parse_semver(a), parse_semver(b)) {
        lemma_semver_basics(x, y);
    }
}

/// Among strings that all parse as semver, the version order is transitive.
pub proof fn law_version_order_transitive_on_semver(a: Seq<char>, b: Seq<char>, c: Seq<char>)
    requires
        parse_semver(a) is Some,
        parse_semver(b) is Some,
        parse_semver(c) is Some,
        version_order(a, b) <= 0,
        version_order(b, c) <= 0,
    ensures
        version_order(a, c) <= 0,
{
    lemma_semver_trans(parse_semver(a).unwrap(), parse_semver(b).unwrap(), parse_semver(c).unwrap());
}

/// The text `X.Y.Z` of three numbers.
pub open spec fn triple_text(x: u64, y: u64, z: u64) -> Seq<char> {
    join_with(seq![decimal(x as nat), decimal(y as nat), decimal(z as nat)], seq!['.'])
}

/// Lexicographic order of number triples.
pub open spec fn triple_order(x: (u64, u64, u64), y: (u64, u64, u64)) -> int {
    if x.0 != y.0 {
        order_int(x.0 as int, y.0 as int)
    } else if x.1 != y.1 {
        order_int(x.1 as int, y.1 as int)
    } else {
        order_int(x.2 as int, y.2 as int)
    }
}

proof fn lemma_strict_num(n: u64)
    ensures
        parse_num(decimal(n as nat)) == Some(n),
        all_digits(decimal(n as nat)),
{
    lemma_decimal_roundtrip(n as nat);
    lemma_decimal_u64(n);
}

proof fn lemma_triple_text_parses(x: u64, y: u64, z: u64)
    ensures
        parse_semver(triple_text(x, y, z)) == Some(
            SemverModel { major: x, minor: y, patch: z, pre: Seq::empty() },
        ),
        !triple_text(x, y, z).contains('+'),
        !triple_text(x, y, z).contains('-'),
        split_on(triple_text(x, y, z), '.') == seq![
            decimal(x as nat),
            decimal(y as nat),
            decimal(z as nat),
        ],
        parse_num(decimal(x as nat)) == Some(x),
        parse_num(decimal(y as nat)) == Some(y),
        parse_num(decimal(z as nat)) == Some(z),
{
    let dx = decimal(x as nat);
    let dy = decimal(y as nat);
    let dz = decimal(z as nat);
    lemma_strict_num(x);
    lemma_strict_num(y);
    lemma_strict_num(z);
    let parts = seq![dx, dy, dz];
    let t = triple_text(x, y, z);
    assert(seq![dx, dy].drop_last() =~= seq![dx]);
    assert(parts.drop_last() =~= seq![dx, dy]);
    assert(seq![dx, dy].drop_last() =~= seq![dx]);
    assert(join_with(seq![dx], seq!['.']) == dx);
    assert(join_with(seq![dx, dy], seq!['.']) == dx + seq!['.'] + dy);
    assert(t == join_with(seq![dx, dy], seq!['.']) + seq!['.'] + dz);
    assert(t =~= dx + seq!['.'] + dy + seq!['.'] + dz);
    assert forall|i: int| 0 <= i < t.len() implies (crate::text::is_digit(#[trigger] t[i]) || t[i]
        == '.') by {
        if i < dx.len() {
            assert(t[i] == dx[i]);
        } else if i == dx.len() {
        } else if i < dx.len() + 1 + dy.len() {
            assert(t[i] == dy[i - dx.len() - 1]);
        } else if i == dx.len() + 1 + dy.len() {
        } else {
            assert(t[i] == dz[i - dx.len() - 2 - dy.len()]);
        }
    }
    lemma_index_of(t, '+');
    lemma_index_of(t, '-');
    assert(!t.contains('+'));
    assert(!t.contains('-'));
    assert forall|i: int| 0 <= i < parts.len() implies free_of(#[trigger] parts[i], is_char('.')) by {
        assert forall|k: int| 0 <= k < parts[i].len() implies !is_char('.')(
            #[trigger] parts[i][k],
        ) by {
            assert(crate::text::is_digit(parts[i][k]));
        }
    }
    lemma_split_join(parts, '.', is_char('.'));
    assert(split_on(t, '.') == parts);
}

/// On strings `X.Y.Z` of numbers, the version order is the numeric order of
/// the triples.
pub proof fn law_semver_triples_numeric(a: (u64, u64, u64), b: (u64, u64, u64))
    ensures
        version_order(triple_text(a.0, a.1, a.2), triple_text(b.0, b.1, b.2)) == triple_order(
            a,
            b,
        ),
{
    lemma_triple_text_parses(a.0, a.1, a.2);
    lemma_triple_text_parses(b.0, b.1, b.2);
}

proof fn lemma_alpha_pre_parses(x: u64, y: u64, z: u64, a: Seq<char>)
    requires
        is_ident(a),
        !all_digits(a),
    ensures
        parse_semver(triple_text(x, y, z) + seq!['-'] + a) == Some(
            SemverModel { major: x, minor: y, patch: z, pre: seq![PreIdModel::Alpha(a)] },
        ),
{
    lemma_triple_text_parses(x, y, z);
    let t = triple_text(x, y, z);
    let s = t + seq!['-'] + a;
    assert(!a.contains('+')) by {
        if a.contains('+') {
            let k = choose|k: int| 0 <= k < a.len() && #[trigger] a[k] == '+';
            assert(is_ident_char(a[k]));
        }
    }
    assert(!a.contains('.')) by {
        if a.contains('.') {
            let k = choose|k: int| 0 <= k < a.len() && #[trigger] a[k] == '.';
            assert(is_ident_char(a[k]));
        }
    }
    assert(!s.contains('+')) by {
        if s.contains('+') {
            let k = choose|k: int| 0 <= k < s.len() && #[trigger] s[k] == '+';
            if k < t.len() {
                assert(t[k] == '+');
            } else if k > t.len() {
                assert(a[k - t.len() - 1] == '+');
            }
        }
    }
    lemma_index_of(s, '+');
    lemma_index_of(s, '-');
    assert(s[t.len() as int] == '-');
    assert(index_of(s, '-') == Some(t.len() as int)) by {
        let i = index_of(s, '-').unwrap();
        if i < t.len() {
            assert(t[i] == '-');
        } else if i > t.len() {
            assert(s.take(i)[t.len() as int] == '-');
        }
    }
    assert(s.take(t.len() as int) =~= t);
    assert(s.skip(t.len() as int + 1) =~= a);
    lemma_free_of_char(a, '.');
    lemma_split_free(a, is_char('.'));
    assert(split_on(a, '.') == seq![a]);
    assert(seq![a].drop_last() =~= Seq::<Seq<char>>::empty());
    assert(parse_pre_id(a) == Some(PreIdModel::Alpha(a)));
    assert(parse_pre_ids(Seq::<Seq<char>>::empty()) == Some(Seq::<PreIdModel>::empty()));
    assert(Seq::<PreIdModel>::empty().push(PreIdModel::Alpha(a)) =~= seq![PreIdModel::Alpha(a)]);
    assert(parse_pre_ids(seq![a]) == Some(seq![PreIdModel::Alpha(a)]));
}

/// Two prereleases of one `X.Y.Z` with one alphanumeric identifier each
/// order as those identifiers do by character code: the first differing
/// character decides, and a proper prefix comes first.  So `1.0.0-alpha`
/// precedes `1.0.0-beta`.
pub proof fn law_alpha_prereleases_order_by_text(
    x: u64,
    y: u64,
    z: u64,
    a: Seq<char>,
    b: Seq<char>,
)
    requires
        is_ident(a),
        is_ident(b),
        !all_digits(a),
        !all_digits(b),
    ensures
        version_order(
            triple_text(x, y, z) + seq!['-'] + a,
            triple_text(x, y, z) + seq!['-'] + b,
        ) == lex_order(a, b),
        (a[0] as int) < (b[0] as int) ==> version_order(
            triple_text(x, y, z) + seq!['-'] + a,
            triple_text(x, y, z) + seq!['-'] + b,
        ) == -1,
        b.len() > a.len() && b.take(a.len() as int) == a ==> version_order(
            triple_text(x, y, z) + seq!['-'] + a,
            triple_text(x, y, z) + seq!['-'] + b,
        ) == -1,
{
    lemma_alpha_pre_parses(x, y, z, a);
    lemma_alpha_pre_parses(x, y, z, b);
    lemma_lex_order_basics(a, b);
    let pa = seq![PreIdModel::Alpha(a)];
    let pb = seq![PreIdModel::Alpha(b)];
    assert(pa.drop_first() =~= Seq::<PreIdModel>::empty());
    assert(pb.drop_first() =~= Seq::<PreIdModel>::empty());
    assert(pre_id_order(pa[0], pb[0]) == lex_order(a, b));
    assert(pre_order(pa.drop_first(), pb.drop_first()) == 0);
    assert(pre_order(pa, pb) == lex_order(a, b));
    let ta = triple_text(x, y, z) + seq!['-'] + a;
    let tb = triple_text(x, y, z) + seq!['-'] + b;
    let sx = SemverModel { major: x, minor: y, patch: z, pre: pa };
    let sy = SemverModel { major: x, minor: y, patch: z, pre: pb };
    assert(semver_order(sx, sy) == pre_order(pa, pb));
    assert(version_order(ta, tb) == semver_order(sx, sy));
    if b.len() > a.len() && b.take(a.len() as int) == a {
        lemma_lex_order_prefix(a, b);
    }
}

proof fn lemma_lex_order_prefix(a: Seq<char>, b: Seq<char>)
    requires
        b.len() > a.len(),
        b.take(a.len() as int) == a,
    ensures
        lex_order(a, b) == -1,
    decreases a.len(),
{
    if a.len() > 0 {
        assert(a[0] == b.take(a.len() as int)[0]);
        assert(b.drop_first().take(a.len() - 1) =~= a.drop_first()) by {
            assert forall|i: int| 0 <= i < a.len() - 1 implies b.drop_first().take(a.len() - 1)[i]
                == a.drop_first()[i] by {
                assert(b.take(a.len() as int)[i + 1] == b[i + 1]);
            }
        }
        lemma_lex_order_prefix(a.drop_first(), b.drop_first());
    }
}

/// Every run that `split_parts` yields is non-empty and alphanumeric.
pub proof fn law_runs_are_alphanumeric(s: Seq<char>)
    ensures
        forall|i: int|
            0 <= i < alnum_runs(s).len() ==> (#[trigger] alnum_runs(s)[i]).len() > 0 && forall|
                k: int,
            |
                0 <= k < alnum_runs(s)[i].len() ==> unicode_alphanumeric(
                    #[trigger] alnum_runs(s)[i][k],
                ),
{
    lemma_pieces(split_where(s, not_alphanumeric()), s);
}

proof fn lemma_pieces(parts: Seq<Seq<char>>, s: Seq<char>)
    requires
        parts == split_where(s, not_alphanumeric()),
    ensures
        forall|i: int|
            0 <= i < alnum_runs(s).len() ==> (#[trigger] alnum_runs(s)[i]).len() > 0 && free_of(
                alnum_runs(s)[i],
                not_alphanumeric(),
            ),
{
    crate::text::lemma_split_pieces_free(s, not_alphanumeric());
    lemma_drop_empty_members(parts);
}

/// Every member of `drop_empty(parts)` is a non-empty member of `parts`.
proof fn lemma_drop_empty_members(parts: Seq<Seq<char>>)
    ensures
        forall|i: int|
            0 <= i < drop_empty(parts).len() ==> (#[trigger] drop_empty(parts)[i]).len() > 0
                && exists|j: int| 0 <= j < parts.len() && parts[j] == drop_empty(parts)[i],
    decreases parts.len(),
{
    if parts.len() > 0 {
        lemma_drop_empty_members(parts.drop_last());
        let d = drop_empty(parts);
        let prev = drop_empty(parts.drop_last());
        assert forall|i: int| 0 <= i < d.len() implies (#[trigger] d[i]).len() > 0 && exists|
            j: int,
        |
            0 <= j < parts.len() && parts[j] == d[i] by {
            if i < prev.len() {
                assert(d[i] == prev[i]);
                let j = choose|j: int|
                    0 <= j < parts.drop_last().len() && parts.drop_last()[j] == prev[i];
                assert(parts[j] == d[i]);
            } else {
                assert(d[i] == parts.last());
                assert(parts[parts.len() - 1] == d[i]);
            }
        }
    }
}

/// Non-empty pieces are all kept by `drop_empty`.
proof fn lemma_drop_empty_nonempty(parts: Seq<Seq<char>>)
    requires
        forall|i: int| 0 <= i < parts.len() ==> (#[trigger] parts[i]).len() > 0,
    ensures
        drop_empty(parts) == parts,
    decreases parts.len(),
{
    if parts.len() > 0 {
        lemma_drop_empty_nonempty(parts.drop_last());
        assert(parts[parts.len() - 1].len() > 0);
        assert(parts.drop_last().push(parts.last()) =~= parts);
    }
}

/// Joining non-empty alphanumeric tokens with a non-alphanumeric separator
/// and splitting again gives the tokens back.
pub proof fn law_split_join_tokens(tokens: Seq<Seq<char>>, sep: char)
    requires
        tokens.len() >= 1,
        !unicode_alphanumeric(sep),
        forall|i: int| 0 <= i < tokens.len() ==> (#[trigger] tokens[i]).len() > 0,
        forall|i: int, k: int|
            0 <= i < tokens.len() && 0 <= k < tokens[i].len() ==> unicode_alphanumeric(
                #[trigger] tokens[i][k],
            ),
    ensures
        alnum_runs(join_with(tokens, seq![sep])) == tokens,
{
    assert forall|i: int| 0 <= i < tokens.len() implies free_of(
        #[trigger] tokens[i],
        not_alphanumeric(),
    ) by {
        assert forall|k: int| 0 <= k < tokens[i].len() implies !not_alphanumeric()(
            #[trigger] tokens[i][k],
        ) by {
            assert(unicode_alphanumeric(tokens[i][k]));
        }
    }
    lemma_split_join(tokens, sep, not_alphanumeric());
    lemma_drop_empty_nonempty(tokens);
}

} // verus!
