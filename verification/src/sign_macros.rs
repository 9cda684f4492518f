//! RPM macros and GPG identity helpers for package signing.

use vstd::prelude::*;
use crate::text::{
    chars_of, contains_char, free_of, is_char, is_space, lemma_free_of_char, lemma_split_concat,
    lemma_split_free, lemma_split_len, lemma_split_pieces_free, lemma_trim_contains, push_chars,
    split_chars, split_on, trim, trim_chars,
};

verus! {

/// Whether `s` holds a line feed or carriage return.
pub open spec fn has_line_break(s: Seq<char>) -> bool {
    s.contains('\n') || s.contains('\r')
}

/// A usable GPG identity: something other than whitespace, and no line
/// break anywhere.
pub open spec fn gpg_name_ok(name: Seq<char>) -> bool {
    trim(name).len() > 0 && !has_line_break(name)
}

/// A value that can stand on one macro line: non-empty, no line break.
pub open spec fn macro_field_ok(value: Seq<char>) -> bool {
    value.len() > 0 && !has_line_break(value)
}

/// The text before the first line feed.
pub open spec fn first_line(s: Seq<char>) -> Seq<char> {
    split_on(s, '\n')[0]
}

/// The identity written into the macros: the first line of the name,
/// trimmed.  (A carriage return that ends that line is whitespace and goes
/// with the trim, as `str::lines` would drop it.)
pub open spec fn macro_name(name: Seq<char>) -> Seq<char> {
    trim(first_line(name))
}

/// The binary written into the macros: the given one when safe, else `gpg`.
pub open spec fn macro_bin(bin: Seq<char>) -> Seq<char> {
    if macro_field_ok(bin) {
        bin
    } else {
        "gpg"@
    }
}

/// The `.rpmmacros` text for an identity, a binary and an optional homedir.
pub open spec fn rpmmacros(name: Seq<char>, bin: Seq<char>, path: Option<Seq<char>>) -> Seq<char> {
    let head = "%_signature gpg\n%_gpg_name "@ + macro_name(name) + "\n%_gpgbin "@ + macro_bin(bin)
        + "\n"@;
    match path {
        Some(p) => if macro_field_ok(p) {
            head + "%_gpg_path "@ + p + "\n"@
        } else {
            head
        },
        None => head,
    }
}

/// True when `name` is a usable GPG identity (non-empty after trim, no
/// line breaks that would inject extra lines into `.rpmmacros`).
pub fn gpg_name_is_valid(name: &str) -> (r: bool)
    ensures
        r == gpg_name_ok(name@),
{
    // Reject CR/LF anywhere (before trim) so leading newlines cannot sneak past.
    let s = chars_of(name);
    let t = trim_chars(&s);
    t.len() > 0 && !contains_char(&s, '\n') && !contains_char(&s, '\r')
}

/// True when a path/binary string is safe to embed on a single macro line.
fn macro_field_is_safe(value: &[char]) -> (r: bool)
    ensures
        r == macro_field_ok(value@),
{
    value.len() > 0 && !contains_char(value, '\n') && !contains_char(value, '\r')
}

/// Build `.rpmmacros` file content for `rpmsign`.
///
/// When `gpg_path` is `Some`, appends `%_gpg_path`. Fields that contain
/// newlines are omitted/sanitized so they cannot inject extra macro lines.
/// Callers should still validate identity via [`gpg_name_is_valid`].
pub fn build_rpmmacros(gpg_name: &str, gpg_bin: &str, gpg_path: Option<&str>) -> (content: String)
    ensures
        content@ == rpmmacros(
            gpg_name@,
            gpg_bin@,
            opt_str(gpg_path),
        ),
{
    let name_chars = chars_of(gpg_name);
    let lines = split_chars(&name_chars, '\n');
    assert(lines@[0]@ == first_line(gpg_name@));
    let name = trim_chars(&lines[0]);
    let bin_chars = chars_of(gpg_bin);
    let mut content = String::from_str("%_signature gpg\n%_gpg_name ");
    push_chars(&mut content, &name);
    content.append("\n%_gpgbin ");
    if macro_field_is_safe(&bin_chars) {
        push_chars(&mut content, &bin_chars);
    } else {
        content.append("gpg");
    }
    content.append("\n");
    if let Some(path) = gpg_path {
        let path_chars = chars_of(path);
        if macro_field_is_safe(&path_chars) {
            content.append("%_gpg_path ");
            push_chars(&mut content, &path_chars);
            content.append("\n");
        }
    }
    content
}

/// Resolve the signing key identity: env value if non-empty, else default.
pub fn resolve_signing_key(env_val: Option<&str>, default_key: &str) -> (key: String)
    ensures
        key@ == match env_val {
            Some(v) => if gpg_name_ok(v@) {
                v@
            } else {
                default_key@
            },
            None => default_key@,
        },
{
    match env_val {
        Some(v) => {
            if gpg_name_is_valid(v) {
                return v.to_owned();
            }
        },
        None => {},
    }
    default_key.to_owned()
}

/// The GPG binary: the given one when it is safe on one macro line, else
/// `gpg`.
pub fn resolve_gpg_bin(env_val: Option<&str>) -> (bin: String)
    ensures
        bin@ == match env_val {
            Some(v) => macro_bin(v@),
            None => "gpg"@,
        },
{
    match env_val {
        Some(v) => {
            let c = chars_of(v);
            if macro_field_is_safe(&c) {
                return v.to_owned();
            }
        },
        None => {},
    }
    String::from_str("gpg")
}

/// The text of an optional string slice.
pub open spec fn opt_str(o: Option<&str>) -> Option<Seq<char>> {
    match o {
        Some(s) => Some(s@),
        None => None,
    }
}

/// The text of an optional string.
pub open spec fn opt_string(o: Option<String>) -> Option<Seq<char>> {
    match o {
        Some(s) => Some(s@),
        None => None,
    }
}

/// The current value when it is acceptable, else the legacy value when it
/// is acceptable.
pub open spec fn first_acceptable(
    current: Option<Seq<char>>,
    legacy: Option<Seq<char>>,
    ok: spec_fn(Seq<char>) -> bool,
) -> Option<Seq<char>> {
    match (current, legacy) {
        (Some(c), _) if ok(c) => Some(c),
        (_, Some(l)) if ok(l) => Some(l),
        _ => None,
    }
}

/// The identity predicate as a value.
pub open spec fn name_ok() -> spec_fn(Seq<char>) -> bool {
    |s: Seq<char>| gpg_name_ok(s)
}

/// The one-line predicate as a value.
pub open spec fn field_ok() -> spec_fn(Seq<char>) -> bool {
    |s: Seq<char>| macro_field_ok(s)
}

/// The signing identity from the current variable, else the legacy one:
/// the first of the two that is a usable identity.
pub fn resolve_gpg_name_from_vars(current: Option<&str>, legacy: Option<&str>) -> (name: Option<
    String,
>)
    ensures
        opt_string(name) == first_acceptable(opt_str(current), opt_str(legacy), name_ok()),
{
    if let Some(c) = current {
        if gpg_name_is_valid(c) {
            return Some(c.to_owned());
        }
    }
    if let Some(l) = legacy {
        if gpg_name_is_valid(l) {
            return Some(l.to_owned());
        }
    }
    None
}

/// The GPG binary from the current variable, else the legacy one, else
/// `gpg`: the first of the two that is safe on one macro line.
pub fn resolve_gpg_bin_from_vars(current: Option<&str>, legacy: Option<&str>) -> (bin: String)
    ensures
        bin@ == match first_acceptable(opt_str(current), opt_str(legacy), field_ok()) {
            Some(b) => b,
            None => "gpg"@,
        },
{
    if let Some(c) = current {
        let cc = chars_of(c);
        if macro_field_is_safe(&cc) {
            return c.to_owned();
        }
    }
    if let Some(l) = legacy {
        let lc = chars_of(l);
        if macro_field_is_safe(&lc) {
            return l.to_owned();
        }
    }
    String::from_str("gpg")
}

/// The GPG homedir from the current variable, else the legacy one: the
/// first of the two that is safe on one macro line.
pub fn resolve_gpg_path_from_vars(current: Option<&str>, legacy: Option<&str>) -> (path: Option<
    String,
>)
    ensures
        opt_string(path) == first_acceptable(opt_str(current), opt_str(legacy), field_ok()),
{
    if let Some(c) = current {
        let cc = chars_of(c);
        if macro_field_is_safe(&cc) {
            return Some(c.to_owned());
        }
    }
    if let Some(l) = legacy {
        let lc = chars_of(l);
        if macro_field_is_safe(&lc) {
            return Some(l.to_owned());
        }
    }
    None
}

/// The lines of the macros text: one per macro, then the empty rest after
/// the final line feed.
pub open spec fn macro_lines(name: Seq<char>, bin: Seq<char>, path: Option<Seq<char>>) -> Seq<
    Seq<char>,
> {
    let head = seq![
        "%_signature gpg"@,
        "%_gpg_name "@ + macro_name(name),
        "%_gpgbin "@ + macro_bin(bin),
    ];
    match path {
        Some(p) => if macro_field_ok(p) {
            head + seq!["%_gpg_path "@ + p, Seq::<char>::empty()]
        } else {
            head + seq![Seq::<char>::empty()]
        },
        None => head + seq![Seq::<char>::empty()],
    }
}

proof fn lemma_no_line_feed_concat(a: Seq<char>, b: Seq<char>)
    requires
        !a.contains('\n'),
        !b.contains('\n'),
    ensures
        free_of(a + b, is_char('\n')),
{
    crate::text::lemma_contains_concat(a, b, '\n');
    lemma_free_of_char(a + b, '\n');
}

/// The macros text is exactly one line per macro, ending in a line feed:
/// no identity, binary or homedir can add a line of its own.
pub proof fn law_rpmmacros_lines(name: Seq<char>, bin: Seq<char>, path: Option<Seq<char>>)
    ensures
        split_on(rpmmacros(name, bin, path), '\n') == macro_lines(name, bin, path),
        !macro_name(name).contains('\n'),
        !macro_bin(bin).contains('\n'),
{
    reveal_strlit("%_signature gpg\n%_gpg_name ");
    reveal_strlit("%_signature gpg");
    reveal_strlit("%_gpg_name ");
    reveal_strlit("\n%_gpgbin ");
    reveal_strlit("%_gpgbin ");
    reveal_strlit("\n");
    reveal_strlit("%_gpg_path ");
    reveal_strlit("gpg");
    let nl = is_char('\n');
    // the name is a trimmed first line, free of line feeds
    lemma_split_len(name, nl);
    lemma_split_pieces_free(name, nl);
    let first = first_line(name);
    assert(free_of(first, nl));
    assert(!first.contains('\n')) by {
        if first.contains('\n') {
            let k = choose|k: int| 0 <= k < first.len() && #[trigger] first[k] == '\n';
            assert(!nl(first[k]));
        }
    }
    lemma_trim_contains(first, is_space(), '\n');
    let n = macro_name(name);
    let b = macro_bin(bin);
    assert(!"gpg"@.contains('\n'));
    let sig = "%_signature gpg"@;
    let l2 = "%_gpg_name "@ + n;
    let l3 = "%_gpgbin "@ + b;
    assert(!sig.contains('\n'));
    assert(!"%_gpg_name "@.contains('\n'));
    assert(!"%_gpgbin "@.contains('\n'));
    lemma_no_line_feed_concat("%_gpg_name "@, n);
    lemma_no_line_feed_concat("%_gpgbin "@, b);
    lemma_free_of_char(sig, '\n');
    lemma_split_free(sig, nl);
    lemma_split_free(l2, nl);
    lemma_split_free(l3, nl);
    let head = "%_signature gpg\n%_gpg_name "@ + n + "\n%_gpgbin "@ + b + "\n"@;
    let empty = Seq::<char>::empty();
    let tail3: Seq<char> = match path {
        Some(p) => if macro_field_ok(p) {
            "%_gpg_path "@ + p + "\n"@
        } else {
            empty
        },
        None => empty,
    };
    let out = rpmmacros(name, bin, path);
    assert(out =~= head + tail3);
    assert(head + tail3 =~= sig.push('\n') + (l2.push('\n') + (l3.push('\n') + tail3)));
    lemma_split_concat(sig, '\n', l2.push('\n') + (l3.push('\n') + tail3), nl);
    lemma_split_concat(l2, '\n', l3.push('\n') + tail3, nl);
    lemma_split_concat(l3, '\n', tail3, nl);
    assert(split_on(empty, '\n') == seq![empty]);
    match path {
        Some(p) => if macro_field_ok(p) {
            let l4 = "%_gpg_path "@ + p;
            assert(!"%_gpg_path "@.contains('\n'));
            lemma_no_line_feed_concat("%_gpg_path "@, p);
            lemma_split_free(l4, nl);
            assert(tail3 =~= l4.push('\n') + empty);
            lemma_split_concat(l4, '\n', empty, nl);
            assert(split_on(out, '\n') =~= macro_lines(name, bin, path));
        } else {
            assert(split_on(out, '\n') =~= macro_lines(name, bin, path));
        },
        None => {
            assert(split_on(out, '\n') =~= macro_lines(name, bin, path));
        },
    }
}

/// The identity line keeps the whole identity: for an identity without a
/// line feed, the macros text starts with the signature line and then
/// `%_gpg_name` followed by the identity with only its surrounding
/// whitespace trimmed, inner spaces and all.
pub proof fn law_gpg_name_line_is_whole_identity(
    name: Seq<char>,
    bin: Seq<char>,
    path: Option<Seq<char>>,
)
    requires
        !name.contains('\n'),
    ensures
        exists|rest: Seq<char>|
            rpmmacros(name, bin, path) == "%_signature gpg\n%_gpg_name "@ + trim(name) + "\n"@
                + rest,
{
    reveal_strlit("\n%_gpgbin ");
    reveal_strlit("%_gpgbin ");
    reveal_strlit("\n");
    lemma_free_of_char(name, '\n');
    lemma_split_free(name, is_char('\n'));
    assert(first_line(name) == name);
    let tail: Seq<char> = match path {
        Some(p) => if macro_field_ok(p) {
            "%_gpg_path "@ + p + "\n"@
        } else {
            Seq::empty()
        },
        None => Seq::empty(),
    };
    let rest = "%_gpgbin "@ + macro_bin(bin) + "\n"@ + tail;
    assert("\n%_gpgbin "@ =~= "\n"@ + "%_gpgbin "@);
    assert(rpmmacros(name, bin, path) =~= "%_signature gpg\n%_gpg_name "@ + trim(name) + "\n"@
        + rest);
}

} // verus!
