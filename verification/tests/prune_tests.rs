//! Prune: selection of the oldest files per package, the KEEP argument,
//! and which pool files are tracked (deterministic generator, fixed seeds).

use idlescreen_packages::{
    PackageFile, PackageGroups, collect_packages, compare_versions, group_by_name,
    is_under_base, parse_keep_arg, prune_targets, select_to_remove, split_dry_run,
};
use std::collections::HashSet;

const CASES: usize = 256;

/// xorshift64* generator.
struct Rng(u64);

impl Rng {
    fn new(seed: u64) -> Self {
        Self(seed | 1)
    }

    fn next(&mut self) -> u64 {
        let mut x = self.0;
        x ^= x >> 12;
        x ^= x << 25;
        x ^= x >> 27;
        self.0 = x;
        x.wrapping_mul(0x2545_F491_4F6C_DD1D)
    }

    fn below(&mut self, n: u64) -> u64 {
        self.next() % n
    }

    fn range(&mut self, lo: u64, hi: u64) -> u64 {
        lo + self.below(hi - lo + 1)
    }

    fn string(&mut self, chars: &[char], min: usize, max: usize) -> String {
        let len = self.range(min as u64, max as u64) as usize;
        (0..len)
            .map(|_| chars[self.below(chars.len() as u64) as usize])
            .collect()
    }
}

const LOWER: &[char] = &[
    'a', 'b', 'c', 'd', 'e', 'f', 'g', 'h', 'i', 'j', 'k', 'l', 'm', 'n', 'o', 'p', 'q', 'r', 's',
    't', 'u', 'v', 'w', 'x', 'y', 'z',
];
const LOWER_DIGIT: &[char] = &[
    'a', 'b', 'c', 'd', 'e', 'f', 'g', 'h', 'i', 'j', 'k', 'l', 'm', 'n', 'o', 'p', 'q', 'r', 's',
    't', 'u', 'v', 'w', 'x', 'y', 'z', '0', '1', '2', '3', '4', '5', '6', '7', '8', '9',
];

/// `X.Y.Z` with each field in `0..limit`
fn semver_core(rng: &mut Rng, limit: u64) -> String {
    format!(
        "{}.{}.{}",
        rng.below(limit),
        rng.below(limit),
        rng.below(limit)
    )
}

/// `[a-z][a-z0-9]{0,max}`
fn pkg_name(rng: &mut Rng, max: usize) -> String {
    let mut s = String::from(LOWER[rng.below(26) as usize]);
    s.push_str(&rng.string(LOWER_DIGIT, 0, max));
    s
}

fn pf(path: &str, version: &str) -> PackageFile {
    PackageFile {
        path: path.to_string(),
        version: version.to_string(),
    }
}

/// One package family with unique paths and semver versions.
fn package_family(rng: &mut Rng) -> (String, Vec<PackageFile>) {
    let name = pkg_name(rng, 8);
    let n = rng.range(1, 7) as usize;
    let files = (0..n)
        .map(|i| {
            let version = semver_core(rng, 30);
            PackageFile {
                path: format!("{name}-{i}-{version}"),
                version,
            }
        })
        .collect();
    (name, files)
}

/// Groups families, appending the files of a name seen before.
fn grouped(families: Vec<(String, Vec<PackageFile>)>) -> PackageGroups {
    let mut map = PackageGroups::new();
    for (name, files) in families {
        for f in files {
            map.add_file(name.clone(), f);
        }
    }
    map
}

fn total_files(map: &PackageGroups) -> usize {
    map.group_sizes().iter().sum()
}

fn strings(v: &[&str]) -> Vec<String> {
    v.iter().map(|s| s.to_string()).collect()
}

#[test]
fn keep_all_when_under_limit() {
    let mut m = PackageGroups::new();
    m.insert(
        "trance".into(),
        vec![pf("a.deb", "1.0.0"), pf("b.deb", "1.0.1")],
    );
    assert!(select_to_remove(m, 3).is_empty());
}

#[test]
fn removes_oldest() {
    let mut m = PackageGroups::new();
    m.insert(
        "trance".into(),
        vec![
            pf("old.deb", "1.0.0"),
            pf("mid.deb", "1.1.0"),
            pf("new.deb", "2.0.0"),
        ],
    );
    let removed = select_to_remove(m, 2);
    assert_eq!(removed.len(), 1);
    assert_eq!(removed[0], "old.deb");
}

#[test]
fn keep_zero_removes_all() {
    let mut m = PackageGroups::new();
    m.insert("p".into(), vec![pf("a", "1"), pf("b", "2")]);
    let removed = select_to_remove(m, 0);
    assert_eq!(removed.len(), 2);
}

#[test]
fn independent_packages() {
    let mut m = PackageGroups::new();
    m.insert(
        "a".into(),
        vec![pf("a1", "1.0.0"), pf("a2", "2.0.0"), pf("a3", "3.0.0")],
    );
    m.insert("b".into(), vec![pf("b1", "1.0.0")]);
    let removed = select_to_remove(m, 1);
    assert_eq!(removed.len(), 2);
    assert!(removed.iter().all(|p| p.starts_with('a')));
}

#[test]
fn empty_map() {
    assert!(select_to_remove(PackageGroups::new(), 3).is_empty());
}

#[test]
fn removes_in_version_order_and_keeps_ties_stable() {
    let mut m = PackageGroups::new();
    m.insert(
        "p".into(),
        vec![
            pf("c", "1.10"),
            pf("a", "1.2"),
            pf("b", "1.2"),
            pf("d", "2.0.0"),
        ],
    );
    assert_eq!(select_to_remove(m, 1), vec!["a", "b", "c"]);
}

#[test]
fn insert_replaces_files_of_a_name() {
    let mut m = PackageGroups::new();
    assert!(m.insert("p".into(), vec![pf("a", "1")]).is_none());
    let prev = m.insert("p".into(), vec![pf("b", "1"), pf("c", "2")]).expect("replaced");
    assert_eq!(prev.len(), 1);
    assert_eq!(prev[0].path, "a");
    assert_eq!(m.len(), 1);
    assert_eq!(m.group_sizes(), vec![2]);
}

#[test]
fn group_by_name_keeps_first_appearance_order() {
    let m = group_by_name(vec![
        ("b".to_string(), pf("b1", "1")),
        ("a".to_string(), pf("a1", "1")),
        ("b".to_string(), pf("b2", "2")),
    ]);
    assert_eq!(m.len(), 2);
    assert_eq!(m.group_sizes(), vec![2, 1]);
    assert_eq!(select_to_remove(m, 0), vec!["b1", "b2", "a1"]);
}

#[test]
fn parse_keep_default_and_value() {
    assert_eq!(parse_keep_arg(&["prune".into()]).expect("default"), 3);
    assert_eq!(parse_keep_arg(&["prune".into(), "5".into()]).expect("5"), 5);
    assert!(parse_keep_arg(&["prune".into(), "x".into()]).is_err());
}

#[test]
fn parse_keep_follows_usize_parsing() {
    assert_eq!(parse_keep_arg(&strings(&["prune", "+7"])), Ok(7));
    assert_eq!(parse_keep_arg(&strings(&["prune", "0"])), Ok(0));
    assert_eq!(parse_keep_arg(&strings(&["prune", "007", "extra"])), Ok(7));
    assert_eq!(
        parse_keep_arg(&strings(&["prune", "-1"])),
        Err("Error: KEEP must be a positive integer (got: -1)".to_string())
    );
    assert!(parse_keep_arg(&strings(&["prune", ""])).is_err());
    assert!(parse_keep_arg(&strings(&["prune", "+"])).is_err());
    assert!(parse_keep_arg(&strings(&["prune", " 3"])).is_err());
    assert!(parse_keep_arg(&strings(&["prune", "99999999999999999999999"])).is_err());
    assert_eq!(parse_keep_arg(&[]), Ok(3));
}

#[test]
fn dry_run_flag_is_split_off() {
    let (dry, rest) = split_dry_run(&strings(&["prune", "--dry-run", "2", "--dry-run"]));
    assert!(dry);
    assert_eq!(rest, strings(&["prune", "2"]));
    let (dry, rest) = split_dry_run(&strings(&["prune", "4"]));
    assert!(!dry);
    assert_eq!(rest, strings(&["prune", "4"]));
    assert_eq!(parse_keep_arg(&rest), Ok(4));
}

#[test]
fn collect_skips_unparseable_and_keeps_safe_paths() {
    let dir = "/tmp/idlescreen-prune-collect";
    let entries = collect_packages(dir, &strings(&["ok_1.0.0_amd64.deb", "notes.txt"]), true);
    assert_eq!(entries.len(), 1);
    assert_eq!(entries[0].0, "ok");
    assert!(is_under_base(dir, &entries[0].1.path));
    assert_eq!(entries[0].1.path, "/tmp/idlescreen-prune-collect/ok_1.0.0_amd64.deb");
    assert_eq!(entries[0].1.version, "1.0.0");
}

#[test]
fn collect_reads_rpm_pools() {
    let entries = collect_packages(
        "rpm/pool",
        &strings(&["a-b-1.2-1.x86_64.rpm", "x_1_all.deb", "..", "c-2-1.noarch.rpm"]),
        false,
    );
    assert_eq!(entries.len(), 2);
    assert_eq!(entries[0].0, "a-b");
    assert_eq!(entries[0].1.path, "rpm/pool/a-b-1.2-1.x86_64.rpm");
    assert_eq!(entries[1].0, "c");
    assert_eq!(entries[1].1.version, "2");
}

#[test]
fn prune_keeps_newest_deb() {
    let dir = "apt/pool/main";
    let files = strings(&[
        "pkg_1.0.0_amd64.deb",
        "pkg_1.1.0_amd64.deb",
        "pkg_2.0.0_amd64.deb",
    ]);
    let remove = prune_targets(dir, &files, 1, true);
    assert_eq!(
        remove,
        strings(&["apt/pool/main/pkg_1.0.0_amd64.deb", "apt/pool/main/pkg_1.1.0_amd64.deb"])
    );
    for p in &remove {
        assert!(is_under_base(dir, p));
    }
}

#[test]
fn prune_missing_dir_ok() {
    assert!(prune_targets("apt/pool/main", &[], 3, true).is_empty());
}

/// Never remove more than total − keep (per package).
#[test]
fn prop_remove_count_bounded() {
    let mut rng = Rng::new(0x9B00_0001);
    for _ in 0..CASES {
        let n_families = rng.range(1, 4) as usize;
        let families: Vec<_> = (0..n_families).map(|_| package_family(&mut rng)).collect();
        let keep = rng.below(6) as usize;
        let map = grouped(families);
        let mut expected_remove = 0usize;
        for n in map.group_sizes() {
            if n > keep {
                expected_remove += n - keep;
            }
        }
        let removed = select_to_remove(map, keep);
        assert_eq!(removed.len(), expected_remove);
    }
}

/// Removed versions are never strictly newer than a kept version of the
/// same package (semver families).
#[test]
fn prop_removed_are_oldest() {
    let mut rng = Rng::new(0x9B00_0002);
    for _ in 0..CASES {
        let name = pkg_name(&mut rng, 8);
        let n = rng.range(2, 7) as usize;
        let versions: Vec<String> = (0..n).map(|_| semver_core(&mut rng, 30)).collect();
        let keep = rng.range(1, 3) as usize;
        let files: Vec<PackageFile> = versions
            .iter()
            .enumerate()
            .map(|(i, version)| PackageFile {
                path: format!("p{i}"),
                version: version.clone(),
            })
            .collect();
        let mut map = PackageGroups::new();
        map.insert(name, files.clone());
        let removed: HashSet<String> = select_to_remove(map, keep).into_iter().collect();
        if files.len() <= keep {
            assert!(removed.is_empty());
            continue;
        }
        let mut kept_versions = Vec::new();
        let mut removed_versions = Vec::new();
        for f in &files {
            if removed.contains(&f.path) {
                removed_versions.push(f.version.clone());
            } else {
                kept_versions.push(f.version.clone());
            }
        }
        assert_eq!(kept_versions.len(), keep);
        for rv in &removed_versions {
            for kv in &kept_versions {
                assert_ne!(
                    compare_versions(rv, kv),
                    std::cmp::Ordering::Greater,
                    "removed {} newer than kept {}",
                    rv,
                    kv
                );
            }
        }
    }
}

/// Grouping then selecting never removes more than there is.
#[test]
fn prop_group_then_select() {
    let mut rng = Rng::new(0x9B00_0003);
    for _ in 0..CASES {
        let n = rng.below(20) as usize;
        let entries: Vec<(String, String, u32)> = (0..n)
            .map(|_| {
                (
                    pkg_name(&mut rng, 8),
                    semver_core(&mut rng, 30),
                    rng.below(100) as u32,
                )
            })
            .collect();
        let keep = rng.below(5) as usize;
        let pairs: Vec<(String, PackageFile)> = entries
            .into_iter()
            .map(|(name, version, i)| {
                (
                    name.clone(),
                    PackageFile {
                        path: format!("{name}-{version}-{i}"),
                        version,
                    },
                )
            })
            .collect();
        let map = group_by_name(pairs);
        let total = total_files(&map);
        let removed = select_to_remove(map, keep);
        assert!(removed.len() <= total);
    }
}

/// keep == 0 removes everything.
#[test]
fn prop_keep_zero_removes_all() {
    let mut rng = Rng::new(0x9B00_0004);
    for _ in 0..CASES {
        let n_families = rng.below(4) as usize;
        let families: Vec<_> = (0..n_families).map(|_| package_family(&mut rng)).collect();
        let map = grouped(families);
        let total = total_files(&map);
        let removed = select_to_remove(map, 0);
        assert_eq!(removed.len(), total);
    }
}
