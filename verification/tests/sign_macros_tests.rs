//! GPG identity checks, `.rpmmacros` generation, signing setup and the RPM
//! selection of the sign tool (deterministic generator, fixed seeds).

use idlescreen_packages::{
    ReleaseSigning, RpmIndexer, RpmSignSetup, release_signing, build_rpmmacros, collect_rpms, gpg_name_is_valid, resolve_gpg_bin,
    resolve_gpg_bin_from_vars, resolve_gpg_name_from_vars, resolve_gpg_path_from_vars,
    resolve_signing_key, rpm_indexer, rpm_sign_setup, rpm_to_sign,
};

const CASES: usize = 512;

/// xorshift64* generator.
struct Rng(u64);

impl Rng {
    fn new(seed: u64) -> Self {
        Self(seed | 1)
    }

    fn next(&mut self) -> u64 {
        let mut x = self.0;
        x ^= x >> 12;
        x ^= x << 25;
        x ^= x >> 27;
        self.0 = x;
        x.wrapping_mul(0x2545_F491_4F6C_DD1D)
    }

    fn below(&mut self, n: u64) -> u64 {
        self.next() % n
    }

    fn range(&mut self, lo: u64, hi: u64) -> u64 {
        lo + self.below(hi - lo + 1)
    }

    fn boolean(&mut self) -> bool {
        self.next() & 1 == 1
    }

    /// `Some(inner)` four times in five.
    fn opt<T>(&mut self, f: impl FnOnce(&mut Self) -> T) -> Option<T> {
        if self.below(5) == 0 {
            None
        } else {
            Some(f(self))
        }
    }

    fn string(&mut self, chars: &[char], min: usize, max: usize) -> String {
        let len = self.range(min as u64, max as u64) as usize;
        (0..len)
            .map(|_| chars[self.below(chars.len() as u64) as usize])
            .collect()
    }
}

const MACRO_FIELD: &[char] = &[
    'A', 'B', 'C', 'D', 'E', 'F', 'G', 'H', 'I', 'J', 'K', 'L', 'M', 'N', 'O', 'P', 'Q', 'R', 'S',
    'T', 'U', 'V', 'W', 'X', 'Y', 'Z', 'a', 'b', 'c', 'd', 'e', 'f', 'g', 'h', 'i', 'j', 'k', 'l',
    'm', 'n', 'o', 'p', 'q', 'r', 's', 't', 'u', 'v', 'w', 'x', 'y', 'z', '0', '1', '2', '3', '4',
    '5', '6', '7', '8', '9', '@', '.', '_', '+', '/', '\\', '-',
];
const WS: &[char] = &[' ', '\t'];

/// Printable ASCII with occasional control characters, up to `max` chars.
fn any_text(rng: &mut Rng, max: usize) -> String {
    let len = rng.below(max as u64 + 1) as usize;
    (0..len)
        .map(|_| {
            let b = if rng.below(16) == 0 {
                rng.below(32) as u8
            } else {
                32 + rng.below(95) as u8
            };
            b as char
        })
        .collect()
}

fn safe_macro_field(rng: &mut Rng) -> String {
    rng.string(MACRO_FIELD, 1, 40)
}

fn gpg_id(rng: &mut Rng) -> String {
    rng.string(MACRO_FIELD, 1, 24)
}

fn maybe_spaces(rng: &mut Rng) -> String {
    rng.string(WS, 0, 8)
}

/// Text without line breaks, 1 to 40 chars.
fn non_empty_line(rng: &mut Rng) -> String {
    let len = rng.range(1, 40) as usize;
    (0..len)
        .map(|_| loop {
            let b = rng.below(128) as u8;
            if b != b'\n' && b != b'\r' {
                break b as char;
            }
        })
        .collect()
}

fn strings(v: &[&str]) -> Vec<String> {
    v.iter().map(|s| s.to_string()).collect()
}

#[test]
fn gpg_name_validation() {
    assert!(!gpg_name_is_valid(""));
    assert!(!gpg_name_is_valid("   "));
    assert!(gpg_name_is_valid("packages@example.com"));
    assert!(gpg_name_is_valid("  a  "));
    assert!(!gpg_name_is_valid("evil\n%_gpg_name other"));
    assert!(!gpg_name_is_valid("a\rb"));
    assert!(!gpg_name_is_valid("\na"));
}

#[test]
fn gpg_name_trims_unicode_whitespace() {
    assert!(!gpg_name_is_valid("\u{3000}\u{a0}"));
    assert!(gpg_name_is_valid("\u{3000}é\u{a0}"));
}

#[test]
fn macros_without_path() {
    let m = build_rpmmacros("me@ex.com", "gpg", None);
    assert!(m.contains("%_signature gpg\n"));
    assert!(m.contains("%_gpg_name me@ex.com\n"));
    assert!(m.contains("%_gpgbin gpg\n"));
    assert!(!m.contains("%_gpg_path"));
}

#[test]
fn macros_with_path() {
    let m = build_rpmmacros("k", "/usr/bin/gpg", Some("/home/u/.gnupg"));
    assert!(m.contains("%_gpg_path /home/u/.gnupg\n"));
    assert!(m.contains("%_gpgbin /usr/bin/gpg\n"));
}

#[test]
fn macros_strip_newline_injection() {
    let m = build_rpmmacros("good@x\n%_gpg_name evil", "gpg\n%_foo bar", Some("p\nq"));
    assert!(m.contains("%_gpg_name good@x\n"));
    assert!(!m.contains("evil"));
    assert!(m.contains("%_gpgbin gpg\n"));
    assert!(!m.contains("%_foo"));
    assert!(!m.contains("%_gpg_path"));
}

#[test]
fn macros_exact_content() {
    assert_eq!(
        build_rpmmacros("  me  ", "gpg2", Some("/g")),
        "%_signature gpg\n%_gpg_name me\n%_gpgbin gpg2\n%_gpg_path /g\n"
    );
    assert_eq!(
        build_rpmmacros("a\r\nb", "", Some("")),
        "%_signature gpg\n%_gpg_name a\n%_gpgbin gpg\n"
    );
    assert_eq!(
        build_rpmmacros("", "gpg", None),
        "%_signature gpg\n%_gpg_name \n%_gpgbin gpg\n"
    );
}

#[test]
fn resolve_key_default() {
    assert_eq!(resolve_signing_key(None, "default@x"), "default@x");
    assert_eq!(resolve_signing_key(Some("  "), "default@x"), "default@x");
    assert_eq!(resolve_signing_key(Some("real@x"), "default@x"), "real@x");
    assert_eq!(resolve_signing_key(Some("a\nb"), "default@x"), "default@x");
}

#[test]
fn resolve_bin_default() {
    assert_eq!(resolve_gpg_bin(None), "gpg");
    assert_eq!(resolve_gpg_bin(Some("")), "gpg");
    assert_eq!(resolve_gpg_bin(Some("gpg2")), "gpg2");
    assert_eq!(resolve_gpg_bin(Some("gpg\nevil")), "gpg");
}

#[test]
fn current_names_win_over_legacy() {
    assert_eq!(
        resolve_gpg_name_from_vars(Some("new@x"), Some("old@x")).as_deref(),
        Some("new@x")
    );
    assert_eq!(
        resolve_gpg_name_from_vars(Some(" "), Some("old@x")).as_deref(),
        Some("old@x")
    );
    assert_eq!(resolve_gpg_name_from_vars(None, Some("a\nb")), None);
    assert_eq!(resolve_gpg_bin_from_vars(Some("g\n"), Some("gpg2")), "gpg2");
    assert_eq!(resolve_gpg_bin_from_vars(None, None), "gpg");
    assert_eq!(resolve_gpg_path_from_vars(Some(""), Some("/h")).as_deref(), Some("/h"));
    assert_eq!(resolve_gpg_path_from_vars(Some("/a"), Some("/h")).as_deref(), Some("/a"));
    assert_eq!(resolve_gpg_path_from_vars(None, Some("x\ry")), None);
}

#[test]
fn collect_rpms_filters_extension() {
    let dir = "/tmp/idlescreen-sign-rpms";
    let found = collect_rpms(
        dir,
        &strings(&[
            "/tmp/idlescreen-sign-rpms/a.rpm",
            "/tmp/idlescreen-sign-rpms/b.deb",
            "/tmp/idlescreen-sign-rpms/notes.txt",
        ]),
    );
    assert_eq!(found.len(), 1);
    assert!(found[0].ends_with("a.rpm"));
}

#[test]
fn collect_rpms_missing_dir() {
    assert!(collect_rpms("/tmp/idlescreen-sign-missing", &[]).is_empty());
}

#[test]
fn rpm_to_sign_needs_a_safe_rpm_name() {
    assert!(rpm_to_sign("rpm/pool", "rpm/pool/x-1-1.x86_64.rpm"));
    assert!(!rpm_to_sign("rpm/pool", "rpm/pool/x.deb"));
    assert!(!rpm_to_sign("rpm/pool", "rpm/pool/a\\b.rpm"));
    assert!(!rpm_to_sign("rpm/pool", "rpm/pool/.rpm"));
}

#[test]
fn rpmsign_setup_choices() {
    assert_eq!(rpm_sign_setup(true, true, false), RpmSignSetup::Ready);
    assert_eq!(rpm_sign_setup(false, true, true), RpmSignSetup::MissingInstallSkipped);
    assert_eq!(rpm_sign_setup(false, false, true), RpmSignSetup::InstallWithDnf);
    assert_eq!(rpm_sign_setup(false, false, false), RpmSignSetup::Missing);
}

#[test]
fn rpm_indexer_choices() {
    assert_eq!(rpm_indexer(true, true), RpmIndexer::Local);
    assert_eq!(rpm_indexer(false, true), RpmIndexer::NixShell);
    assert_eq!(rpm_indexer(false, false), RpmIndexer::Skip);
}

/// Non-empty trimmed names are valid; pure whitespace is not.
#[test]
fn prop_gpg_name_valid_iff_nonempty_trim() {
    let mut rng = Rng::new(0x6B1_0001);
    for _ in 0..CASES {
        let core = gpg_id(&mut rng);
        let pad = maybe_spaces(&mut rng);
        let padded = format!("{pad}{core}{pad}");
        assert!(gpg_name_is_valid(&padded));
        assert!(!gpg_name_is_valid(&pad));
    }
}

/// Newlines in identity always invalidate the name.
#[test]
fn prop_gpg_name_rejects_newlines() {
    let mut rng = Rng::new(0x6B1_0002);
    for _ in 0..CASES {
        let left = rng.string(&['a', 'b', 'c', '0', '1', '2'], 0, 12);
        let right = rng.string(&['a', 'b', 'c', '0', '1', '2'], 0, 12);
        let with_lf = format!("{left}\n{right}");
        let with_cr = format!("{left}\r{right}");
        assert!(!gpg_name_is_valid(&with_lf));
        assert!(!gpg_name_is_valid(&with_cr));
    }
}

/// Macros always embed name and bin; path line only when provided.
#[test]
fn prop_macros_contain_fields() {
    let mut rng = Rng::new(0x6B1_0003);
    for _ in 0..CASES {
        let name = safe_macro_field(&mut rng);
        let bin = safe_macro_field(&mut rng);
        let path = rng.opt(|r| safe_macro_field(r));
        let content = build_rpmmacros(&name, &bin, path.as_deref());
        assert!(content.contains("%_signature gpg\n"));
        let name_line = format!("%_gpg_name {name}\n");
        let bin_line = format!("%_gpgbin {bin}\n");
        assert!(content.contains(&name_line), "missing name line");
        assert!(content.contains(&bin_line), "missing bin line");
        match &path {
            Some(p) => {
                let line = format!("%_gpg_path {p}\n");
                assert!(content.contains(&line));
            }
            None => {
                assert!(!content.contains("%_gpg_path"));
            }
        }
        // Exactly one line per macro key — no injection.
        assert_eq!(content.matches("%_gpg_name ").count(), 1);
        assert_eq!(content.matches("%_gpgbin ").count(), 1);
    }
}

/// resolve_signing_key prefers a valid value over the default.
#[test]
fn prop_resolve_signing_key() {
    let mut rng = Rng::new(0x6B1_0004);
    for _ in 0..CASES {
        let env = rng.opt(|r| non_empty_line(r));
        let default = non_empty_line(&mut rng);
        let got = resolve_signing_key(env.as_deref(), &default);
        match &env {
            Some(v) if gpg_name_is_valid(v) => assert_eq!(&got, v),
            _ => assert_eq!(got, default),
        }
    }
}

/// resolve_gpg_bin defaults to "gpg" when missing, empty, or unsafe.
#[test]
fn prop_resolve_gpg_bin() {
    let mut rng = Rng::new(0x6B1_0005);
    for _ in 0..CASES {
        let env = rng.opt(|r| any_text(r, 20));
        let got = resolve_gpg_bin(env.as_deref());
        match &env {
            Some(v) if !v.is_empty() && !v.contains('\n') && !v.contains('\r') => {
                assert_eq!(&got, v);
            }
            _ => assert_eq!(got, "gpg"),
        }
    }
}

/// Macros end with a trailing newline.
#[test]
fn prop_macros_trailing_newline() {
    let mut rng = Rng::new(0x6B1_0006);
    for _ in 0..CASES {
        let name = safe_macro_field(&mut rng);
        let bin = safe_macro_field(&mut rng);
        let with_path = rng.boolean();
        let path = if with_path { Some("/tmp/gnupg") } else { None };
        let content = build_rpmmacros(&name, &bin, path);
        assert!(content.ends_with('\n'));
    }
}

#[test]
fn release_signing_is_fail_closed() {
    assert_eq!(release_signing(true), ReleaseSigning::Sign);
    assert_eq!(release_signing(false), ReleaseSigning::RefuseUnsigned);
}
