//! Pool paths, path safety and sweep destinations: fixed cases and
//! generated names (deterministic generator, fixed seeds).

use idlescreen_packages::{
    deb_pool_dest, file_name_of, is_rpm_path, is_under_base, package_sweep_dest, rpm_pool_dest,
    safe_join_under, sweep_target,
};

const CASES: usize = 512;

/// xorshift64* generator.
struct Rng(u64);

impl Rng {
    fn new(seed: u64) -> Self {
        Self(seed | 1)
    }

    fn next(&mut self) -> u64 {
        let mut x = self.0;
        x ^= x >> 12;
        x ^= x << 25;
        x ^= x >> 27;
        self.0 = x;
        x.wrapping_mul(0x2545_F491_4F6C_DD1D)
    }

    fn below(&mut self, n: u64) -> u64 {
        self.next() % n
    }

    fn range(&mut self, lo: u64, hi: u64) -> u64 {
        lo + self.below(hi - lo + 1)
    }

    fn string(&mut self, chars: &[char], min: usize, max: usize) -> String {
        let len = self.range(min as u64, max as u64) as usize;
        (0..len)
            .map(|_| chars[self.below(chars.len() as u64) as usize])
            .collect()
    }
}

const ALNUM: &[char] = &[
    '0', '1', '2', '3', '4', '5', '6', '7', '8', '9', 'a', 'b', 'c', 'd', 'e', 'f', 'g', 'h', 'i',
    'j', 'k', 'l', 'm', 'n', 'o', 'p', 'q', 'r', 's', 't', 'u', 'v', 'w', 'x', 'y', 'z', 'A', 'B',
    'C', 'D', 'E', 'F', 'G', 'H', 'I', 'J', 'K', 'L', 'M', 'N', 'O', 'P', 'Q', 'R', 'S', 'T', 'U',
    'V', 'W', 'X', 'Y', 'Z',
];
const SAFE_SEG: &[char] = &[
    'A', 'B', 'C', 'D', 'E', 'F', 'G', 'H', 'I', 'J', 'K', 'L', 'M', 'N', 'O', 'P', 'Q', 'R', 'S',
    'T', 'U', 'V', 'W', 'X', 'Y', 'Z', 'a', 'b', 'c', 'd', 'e', 'f', 'g', 'h', 'i', 'j', 'k', 'l',
    'm', 'n', 'o', 'p', 'q', 'r', 's', 't', 'u', 'v', 'w', 'x', 'y', 'z', '0', '1', '2', '3', '4',
    '5', '6', '7', '8', '9', '.', '_', '+', '-',
];

/// `[A-Za-z0-9][A-Za-z0-9._+-]{0,24}`
fn safe_segment(rng: &mut Rng) -> String {
    let mut s = String::from(ALNUM[rng.below(ALNUM.len() as u64) as usize]);
    s.push_str(&rng.string(SAFE_SEG, 0, 24));
    s
}

#[test]
fn sweep_dest_deb_rpm() {
    let f = "pkg_1.0_amd64.deb";
    assert_eq!(
        package_sweep_dest(f, "deb").expect("deb"),
        "apt/pool/main/pkg_1.0_amd64.deb"
    );
    let r = "pkg-1.0-1.x86_64.rpm";
    assert_eq!(
        package_sweep_dest(r, "rpm").expect("rpm"),
        "rpm/pool/pkg-1.0-1.x86_64.rpm"
    );
    assert!(package_sweep_dest(f, "txt").is_none());
}

#[test]
fn is_rpm_extension() {
    assert!(is_rpm_path("foo.rpm"));
    assert!(!is_rpm_path("foo.deb"));
    assert!(!is_rpm_path("foo"));
}

#[test]
fn is_rpm_path_edge_cases() {
    assert!(is_rpm_path("rpm/pool/a-1-1.x86_64.rpm"));
    assert!(is_rpm_path("a.rpm/"));
    assert!(!is_rpm_path(".rpm"));
    assert!(!is_rpm_path("a.rpm/.."));
    assert!(!is_rpm_path(""));
    assert!(!is_rpm_path("a.RPM"));
}

#[test]
fn safe_join_accepts_plain_name() {
    let base = "rpm/pool";
    let out = safe_join_under(base, "pkg-1.0-1.x86_64.rpm").expect("ok");
    assert_eq!(out, "rpm/pool/pkg-1.0-1.x86_64.rpm");
    assert!(is_under_base(base, &out));
}

#[test]
fn safe_join_rejects_traversal() {
    let base = "/var/lib/pool";
    assert!(safe_join_under(base, "..").is_none());
    assert!(safe_join_under(base, ".").is_none());
    assert!(safe_join_under(base, "").is_none());
    assert!(safe_join_under(base, "a/b").is_none());
    assert!(safe_join_under(base, "a\\b").is_none());
    assert!(safe_join_under(base, "/etc/passwd").is_none());
}

#[test]
fn safe_join_rejects_parent_in_name() {
    let base = "apt/pool/main";
    assert!(safe_join_under(base, "..").is_none());
    let ok = safe_join_under(base, "evil").expect("plain");
    assert!(is_under_base(base, &ok));
}

#[test]
fn safe_join_separator_rules() {
    assert_eq!(safe_join_under("", "a").expect("empty base"), "a");
    assert_eq!(safe_join_under("pool/", "a").expect("trailing slash"), "pool/a");
    assert_eq!(safe_join_under("/", "a").expect("root"), "/a");
}

#[test]
fn is_under_base_uses_components() {
    assert!(is_under_base("pool", "pool/a"));
    assert!(!is_under_base("pool", "./pool/a"));
    assert!(!is_under_base("./pool", "pool/a"));
    assert!(is_under_base("pool/", "pool//a"));
    assert!(is_under_base("pool", "pool/./a"));
    assert!(!is_under_base("pool", "pool"));
    assert!(!is_under_base("pool", "pool/"));
    assert!(!is_under_base("pool", "poolx/a"));
    assert!(!is_under_base("/pool", "pool/a"));
    assert!(is_under_base("pool", "pool/../x"));
}

#[test]
fn file_name_of_paths() {
    assert_eq!(file_name_of("rpm/pool/a.rpm").as_deref(), Some("a.rpm"));
    assert_eq!(file_name_of("a/b/").as_deref(), Some("b"));
    assert_eq!(file_name_of("a/.."), None);
    assert_eq!(file_name_of("/"), None);
    assert_eq!(file_name_of("."), None);
}

#[test]
fn sweep_targets_for_loose_files() {
    assert_eq!(
        sweep_target(".", "foo_1.0_amd64.deb", "deb").as_deref(),
        Some("apt/pool/main/foo_1.0_amd64.deb")
    );
    assert_eq!(
        sweep_target("./", "bar-1.0-1.x86_64.rpm", "rpm").as_deref(),
        Some("rpm/pool/bar-1.0-1.x86_64.rpm")
    );
    assert_eq!(
        sweep_target("/tmp/root", "foo_1.0_amd64.deb", "deb").as_deref(),
        Some("/tmp/root/apt/pool/main/foo_1.0_amd64.deb")
    );
    assert_eq!(
        sweep_target("/tmp/root/", "bar-1.0-1.x86_64.rpm", "rpm").as_deref(),
        Some("/tmp/root/rpm/pool/bar-1.0-1.x86_64.rpm")
    );
    assert_eq!(sweep_target("/tmp/root", "readme.txt", "txt"), None);
    assert_eq!(sweep_target(".", "..", "deb"), None);
}

/// Safe single-segment names join under base and stay under base.
#[test]
fn prop_safe_join_under_base() {
    let mut rng = Rng::new(0xBA5E_0001);
    for _ in 0..CASES {
        let n = rng.range(1, 3) as usize;
        let base_segs: Vec<String> = (0..n).map(|_| safe_segment(&mut rng)).collect();
        let file = safe_segment(&mut rng);
        let base = base_segs.join("/");
        let out = safe_join_under(&base, &file).expect("safe segment must join");
        assert!(is_under_base(&base, &out));
        assert_eq!(out, format!("{base}/{file}"));
    }
}

/// Names with `/` or `\\` are always rejected.
#[test]
fn prop_reject_separators() {
    let mut rng = Rng::new(0xBA5E_0002);
    for _ in 0..CASES {
        let left = safe_segment(&mut rng);
        let right = safe_segment(&mut rng);
        let base = "pool";
        let slash = format!("{left}/{right}");
        let back = format!("{left}\\{right}");
        assert!(safe_join_under(base, &slash).is_none());
        assert!(safe_join_under(base, &back).is_none());
        assert!(package_sweep_dest(&slash, "deb").is_none());
        assert!(package_sweep_dest(&back, "rpm").is_none());
    }
}

/// `.` and `..` and empty are rejected.
#[test]
fn prop_reject_dot_names() {
    let base = "/tmp/pool";
    assert!(safe_join_under(base, ".").is_none());
    assert!(safe_join_under(base, "..").is_none());
    assert!(safe_join_under(base, "").is_none());
    assert!(deb_pool_dest("..").is_none());
    assert!(rpm_pool_dest(".").is_none());
}

/// Sweep destinations always land under the expected pool prefix.
#[test]
fn prop_sweep_dest_prefix() {
    let mut rng = Rng::new(0xBA5E_0003);
    for _ in 0..CASES {
        let name = safe_segment(&mut rng);
        let deb = format!("{name}.deb");
        let rpm = format!("{name}.rpm");
        let d = package_sweep_dest(&deb, "deb").expect("deb");
        let r = package_sweep_dest(&rpm, "rpm").expect("rpm");
        assert!(d.starts_with("apt/pool/main"));
        assert!(r.starts_with("rpm/pool"));
        assert_eq!(&d, &deb_pool_dest(&deb).expect("deb dest"));
        assert_eq!(&r, &rpm_pool_dest(&rpm).expect("rpm dest"));
        assert!(package_sweep_dest(&deb, "txt").is_none());
        assert!(is_under_base("apt/pool/main", &d));
        assert!(is_under_base("rpm/pool", &r));
    }
}

/// Absolute names are rejected.
#[test]
fn prop_reject_absolute_unix() {
    let mut rng = Rng::new(0xBA5E_0004);
    for _ in 0..CASES {
        let rest = safe_segment(&mut rng);
        let base = "/var/lib/pool";
        let abs = format!("/{rest}");
        assert!(safe_join_under(base, &abs).is_none());
        assert!(package_sweep_dest(&abs, "deb").is_none());
    }
}
