//! Parse Debian and RPM package filenames into name + version.

use vstd::prelude::*;
use crate::text::{
    chars_of, contains_char, ends_with, ends_with_chars, is_char, join_chars, join_with,
    lemma_contains_concat, lemma_join_split, lemma_split_concat, lemma_split_free, lemma_split_len,
    lemma_split_pieces_free, slice_range,
    split_chars, split_on, string_of, free_of,
};

verus! {

/// Package identity extracted from a filename (name + version only).
#[derive(Debug, Clone)]
pub struct PackageId {
    pub name: String,
    pub version: String,
}

/// Whether a filename holds a path separator of either platform.
pub open spec fn has_separator(s: Seq<char>) -> bool {
    s.contains('/') || s.contains('\\')
}

/// Name and version of a `.deb` filename `name_version_arch.deb`: the first
/// two `_`-separated fields before the extension, both non-empty, of a bare
/// filename.  The extension is never part of a field.
pub open spec fn deb_id(s: Seq<char>) -> Option<(Seq<char>, Seq<char>)> {
    let parts = split_on(s.take(s.len() - ".deb"@.len()), '_');
    if !ends_with(s, ".deb"@) || has_separator(s) || parts.len() < 2 || parts[0].len() == 0
        || parts[1].len() == 0 {
        None
    } else {
        Some((parts[0], parts[1]))
    }
}

/// Name and version of an `.rpm` filename `name-version-release.arch.rpm`:
/// without the extension, the second-to-last `-`-separated field is the
/// version and everything before it the (possibly dashed) name.
pub open spec fn rpm_id(s: Seq<char>) -> Option<(Seq<char>, Seq<char>)> {
    let base = s.take(s.len() - ".rpm"@.len());
    let parts = split_on(base, '-');
    let version = parts[parts.len() - 2];
    let name = join_with(parts.take(parts.len() - 2), seq!['-']);
    if !ends_with(s, ".rpm"@) || has_separator(s) || parts.len() < 3 || version.len() == 0
        || name.len() == 0 {
        None
    } else {
        Some((name, version))
    }
}

/// Whether a parse result carries exactly the expected fields.
pub open spec fn id_matches(r: Option<PackageId>, spec: Option<(Seq<char>, Seq<char>)>) -> bool {
    match (r, spec) {
        (Some(id), Some((name, version))) => id.name@ == name && id.version@ == version,
        (None, None) => true,
        _ => false,
    }
}

/// Parse a `.deb` filename: `name_version_arch.deb`.
///
/// Requires at least two `_`-separated fields before the extension.
/// Returns `None` if the name does not end with `.deb` or lacks fields.
pub fn parse_deb_filename(filename: &str) -> (r: Option<PackageId>)
    ensures
        id_matches(r, deb_id(filename@)),
{
    let s = chars_of(filename);
    let ext = chars_of(".deb");
    if !ends_with_chars(&s, &ext) {
        return None;
    }
    // Reject path separators: only bare filenames are accepted.
    if contains_char(&s, '/') || contains_char(&s, '\\') {
        return None;
    }
    let base = slice_range(&s, 0, s.len() - ext.len());
    assert(base@ =~= s@.take(s@.len() - ".deb"@.len()));
    let parts = split_chars(&base, '_');
    if parts.len() < 2 {
        return None;
    }
    assert(parts@[0]@ == split_on(base@, '_')[0]);
    assert(parts@[1]@ == split_on(base@, '_')[1]);
    if parts[0].len() == 0 || parts[1].len() == 0 {
        return None;
    }
    Some(PackageId { name: string_of(&parts[0]), version: string_of(&parts[1]) })
}

/// Parse an `.rpm` filename: `name-version-release.arch.rpm`.
///
/// Uses the last two `-`-separated segments of the basename (without `.rpm`)
/// as release and version respectively; everything before is the name.
/// Multi-dash names (e.g. `trance-plugin-beams`) are supported.
pub fn parse_rpm_filename(filename: &str) -> (r: Option<PackageId>)
    ensures
        id_matches(r, rpm_id(filename@)),
{
    let s = chars_of(filename);
    let ext = chars_of(".rpm");
    if !ends_with_chars(&s, &ext) {
        return None;
    }
    if contains_char(&s, '/') || contains_char(&s, '\\') {
        return None;
    }
    let base = slice_range(&s, 0, s.len() - ext.len());
    assert(base@ =~= s@.take(s@.len() - ".rpm"@.len()));
    let parts = split_chars(&base, '-');
    let n = parts.len();
    // name[-name...]-version-release.arch needs at least three segments
    if n < 3 {
        return None;
    }
    assert(parts@[n - 2]@ == split_on(base@, '-')[n - 2]);
    if parts[n - 2].len() == 0 {
        return None;
    }
    let name = join_chars(&parts, n - 2, '-');
    assert(parts@.map_values(|p: Vec<char>| p@).take(n - 2) =~= split_on(base@, '-').take(
        n - 2,
    ));
    if name.len() == 0 {
        return None;
    }
    Some(PackageId { name: string_of(&name), version: string_of(&parts[n - 2]) })
}

proof fn lemma_no_separator_concat(a: Seq<char>, b: Seq<char>)
    ensures
        has_separator(a + b) <==> has_separator(a) || has_separator(b),
{
    lemma_contains_concat(a, b, '/');
    lemma_contains_concat(a, b, '\\');
}

/// A well-formed `name_version_arch.deb` parses back to its name and version.
pub proof fn law_deb_roundtrip(name: Seq<char>, version: Seq<char>, arch: Seq<char>)
    requires
        name.len() > 0,
        version.len() > 0,
        free_of(name, is_char('_')),
        free_of(version, is_char('_')),
        !has_separator(name),
        !has_separator(version),
        !has_separator(arch),
    ensures
        deb_id(name + seq!['_'] + version + seq!['_'] + arch + ".deb"@) == Some((name, version)),
{
    reveal_strlit(".deb");
    let ext = ".deb"@;
    let t = name + seq!['_'] + version + seq!['_'] + arch + ext;
    let base = name + seq!['_'] + version + seq!['_'] + arch;
    assert(t.take(t.len() - ext.len()) =~= base);
    assert(base =~= name.push('_') + (version.push('_') + arch));
    lemma_split_concat(name, '_', version.push('_') + arch, is_char('_'));
    lemma_split_concat(version, '_', arch, is_char('_'));
    lemma_split_free(name, is_char('_'));
    lemma_split_free(version, is_char('_'));
    lemma_split_len(arch, is_char('_'));
    assert(t.skip(t.len() - ext.len()) =~= ext);
    assert(!has_separator(ext));
    assert(!has_separator(seq!['_']));
    lemma_no_separator_concat(name, seq!['_']);
    lemma_no_separator_concat(name + seq!['_'], version);
    lemma_no_separator_concat(name + seq!['_'] + version, seq!['_']);
    lemma_no_separator_concat(name + seq!['_'] + version + seq!['_'], arch);
    lemma_no_separator_concat(name + seq!['_'] + version + seq!['_'] + arch, ext);
}

/// A well-formed `name-version-release.arch.rpm` parses back to its name and
/// version, also when the name holds dashes.
pub proof fn law_rpm_roundtrip(name: Seq<char>, version: Seq<char>, tail: Seq<char>)
    requires
        name.len() > 0,
        version.len() > 0,
        free_of(version, is_char('-')),
        free_of(tail, is_char('-')),
        !has_separator(name),
        !has_separator(version),
        !has_separator(tail),
    ensures
        rpm_id(name + seq!['-'] + version + seq!['-'] + tail + ".rpm"@) == Some((name, version)),
{
    reveal_strlit(".rpm");
    let ext = ".rpm"@;
    let t = name + seq!['-'] + version + seq!['-'] + tail + ext;
    let base = name + seq!['-'] + version + seq!['-'] + tail;
    assert(t.take(t.len() - ext.len()) =~= base);
    assert(base =~= name.push('-') + (version.push('-') + tail));
    lemma_split_concat(name, '-', version.push('-') + tail, is_char('-'));
    lemma_split_concat(version, '-', tail, is_char('-'));
    lemma_split_free(version, is_char('-'));
    lemma_split_free(tail, is_char('-'));
    lemma_split_len(name, is_char('-'));
    let parts = split_on(base, '-');
    assert(parts =~= split_on(name, '-') + seq![version, tail]);
    assert(parts.take(parts.len() - 2) =~= split_on(name, '-'));
    lemma_join_split(name, '-');
    assert(t.skip(t.len() - ext.len()) =~= ext);
    assert(!has_separator(ext));
    assert(!has_separator(seq!['-']));
    lemma_no_separator_concat(name, seq!['-']);
    lemma_no_separator_concat(name + seq!['-'], version);
    lemma_no_separator_concat(name + seq!['-'] + version, seq!['-']);
    lemma_no_separator_concat(name + seq!['-'] + version + seq!['-'], tail);
    lemma_no_separator_concat(name + seq!['-'] + version + seq!['-'] + tail, ext);
}

/// Every parsed `.rpm` name re-forms from its parts: the file is
/// `name-version-release.rpm` with a non-empty name and version, a version
/// and release free of dashes, and no path separator anywhere.
pub proof fn law_rpm_parse_reforms(s: Seq<char>, name: Seq<char>, version: Seq<char>)
    requires
        rpm_id(s) == Some((name, version)),
    ensures
        name.len() > 0,
        version.len() > 0,
        free_of(version, is_char('-')),
        !has_separator(s),
        exists|rel: Seq<char>|
            free_of(rel, is_char('-')) && s == name + seq!['-'] + version + seq!['-'] + rel
                + ".rpm"@,
{
    reveal_strlit(".rpm");
    let ext = ".rpm"@;
    let base = s.take(s.len() - ext.len());
    let parts = split_on(base, '-');
    let n = parts.len();
    let sep = seq!['-'];
    lemma_join_split(base, '-');
    lemma_split_pieces_free(base, is_char('-'));
    let init = parts.drop_last();
    assert(init.drop_last() =~= parts.take(n - 2));
    assert(init.last() == parts[n - 2]);
    assert(join_with(parts, sep) == join_with(init, sep) + sep + parts[n - 1]);
    assert(join_with(init, sep) == join_with(init.drop_last(), sep) + sep + init.last());
    let rel = parts[n - 1];
    assert(free_of(parts[n - 2], is_char('-')));
    assert(free_of(rel, is_char('-')));
    assert(s =~= base + ext);
    assert(s =~= name + sep + version + sep + rel + ext);
}

} // verus!
