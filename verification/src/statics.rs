//! Syscall indices from tables of known Windows builds.
use vstd::prelude::*;

use crate::image::Arch;
use crate::order::{entries_view, is_stable_sort, lemma_stable_sort_unique, sort_by_key};
use crate::{LoadError, LoadFile};

verus! {

#[verifier::external_type_specification]
#[verifier::external_body]
#[verifier::reject_recursive_types(K)]
#[verifier::reject_recursive_types(V)]
pub struct ExPhfMap<K: 'static, V: 'static>(phf::Map<K, V>);

/// The entries of a table of builds, each a build number and its syscall
/// table, in the map's fixed order.
pub uninterp spec fn build_entries(m: phf::Map<u32, phf::Map<&'static str, u16>>) -> Seq<
    (u32, phf::Map<&'static str, u16>),
>;

/// The syscall table that a lookup of `build` finds in a table of builds.
pub uninterp spec fn table_lookup(m: phf::Map<u32, phf::Map<&'static str, u16>>, build: u32) -> Option<
    phf::Map<&'static str, u16>,
>;

/// The syscalls of a table, each a name and an index, in the table's fixed order.
pub uninterp spec fn table_entries(m: phf::Map<&'static str, u16>) -> Seq<(Seq<char>, u16)>;

/// The number of builds in a table of builds.
///
/// Trusted: calls `phf::Map::len`, which answers the number of the map's
/// entries.
#[verifier::external_body]
fn table_size(m: &'static phf::Map<u32, phf::Map<&'static str, u16>>) -> (r: usize)
    ensures
        r == build_entries(*m).len(),
{
    m.len()
}

/// The syscall table of build `build` in the table of builds `m`, which has
/// entries.
///
/// Trusted: calls `phf::Map::get`.  The contract claims that the answer is
/// the lookup that `table_lookup` names, and that a table found is one of the
/// map's entries, under the key `build` (the entry's key is compared with
/// it).  `get` divides by the number of entries once the map has
/// displacements, so a map without entries is left out.  Left unsaid: that
/// every key of the entries is found, which holds only where the
/// displacements were computed for those entries, as phf's code generation
/// does.
#[verifier::external_body]
fn table_for_build(
    m: &'static phf::Map<u32, phf::Map<&'static str, u16>>,
    build: u32,
) -> (r: Option<&'static phf::Map<&'static str, u16>>)
    requires
        build_entries(*m).len() > 0,
    ensures
        match r {
            Some(t) => table_lookup(*m, build) == Some(*t),
            None => table_lookup(*m, build) is None,
        },
        r matches Some(t) ==> build_entries(*m).contains((build, *t)),
{
    m.get(&build)
}

/// The syscalls of a table with their indices widened to `u32`.
///
/// Trusted: walks `phf::Map::entries` and converts each key and value.  The
/// contract claims that the entries come in the order that `table_entries`
/// names, which phf documents as arbitrary but fixed.
#[verifier::external_body]
fn table_syscalls(t: &'static phf::Map<&'static str, u16>) -> (r: Vec<(String, u64)>)
    ensures
        entries_view(r@) == table_entries(*t).map_values(
            |e: (Seq<char>, u16)| (e.0, e.1 as int),
        ),
{
    t.entries().map(|(k, v)| (k.to_string(), *v as u64)).collect()
}

/// The syscall tables of the four images, each keyed by build number.
pub struct SyscallTables {
    pub ntdll64: &'static phf::Map<u32, phf::Map<&'static str, u16>>,
    pub ntdll32: &'static phf::Map<u32, phf::Map<&'static str, u16>>,
    pub win64: &'static phf::Map<u32, phf::Map<&'static str, u16>>,
    pub win32: &'static phf::Map<u32, phf::Map<&'static str, u16>>,
}

/// The Windows build numbers that the tables cover, in increasing order.
pub open spec fn known_builds() -> Seq<u32> {
    seq![
        528u32, 807, 1057, 1381, 2195, 2600, 3790, 6000, 6001, 6002, 7600, 7601, 9200, 9600,
        10240, 10586, 14393, 15063, 16299, 17134, 17763, 18362, 19002, 19041, 19042, 19043,
        19044, 19045, 22000, 22621, 22631, 26100,
    ]
}

/// Builds the list of known build numbers.
pub fn versions() -> (r: Vec<u32>)
    ensures
        r@ == known_builds(),
{
    let r = vec![
        528u32, 807, 1057, 1381, 2195, 2600, 3790, 6000, 6001, 6002, 7600, 7601, 9200, 9600,
        10240, 10586, 14393, 15063, 16299, 17134, 17763, 18362, 19002, 19041, 19042, 19043,
        19044, 19045, 22000, 22621, 22631, 26100,
    ];
    assert(r@ =~= known_builds());
    r
}

/// The known build whose table serves `version`: the last known build that
/// is not above it.
pub open spec fn serving_build(builds: Seq<u32>, version: u32) -> int
    decreases builds.len(),
{
    if builds.len() == 0 {
        0
    } else if builds.last() <= version {
        builds.last() as int
    } else {
        serving_build(builds.drop_last(), version)
    }
}

/// Each build number of `s` is below the next.
pub open spec fn ascending(s: Seq<u32>) -> bool {
    forall|k: int| 0 <= k < s.len() - 1 ==> #[trigger] s[k] < s[k + 1]
}

proof fn lemma_ascending_chain(s: Seq<u32>, a: int, b: int)
    requires
        ascending(s),
        0 <= a <= b < s.len(),
    ensures
        s[a] <= s[b],
    decreases b - a,
{
    if a < b {
        lemma_ascending_chain(s, a, b - 1);
        assert(s[b - 1] < s[b]);
    }
}

/// The build that serves `v` is the one at `i` when `v` lies from it up to,
/// not including, the next.
proof fn lemma_serving(s: Seq<u32>, v: u32, i: int)
    requires
        ascending(s),
        0 <= i < s.len(),
        s[i] <= v,
        i + 1 == s.len() || v < s[i + 1],
    ensures
        serving_build(s, v) == s[i],
    decreases s.len(),
{
    if i + 1 < s.len() {
        lemma_ascending_chain(s, i + 1, s.len() - 1);
        let r = s.drop_last();
        assert(ascending(r)) by {
            assert forall|k: int| 0 <= k < r.len() - 1 implies #[trigger] r[k] < r[k + 1] by {
                assert(s[k] < s[k + 1]);
            }
        }
        lemma_serving(r, v, i);
    }
}

proof fn lemma_known_builds_ascending()
    ensures
        ascending(known_builds()),
        known_builds().len() == 32,
{
    let s = known_builds();
    assert forall|k: int| 0 <= k < s.len() - 1 implies #[trigger] s[k] < s[k + 1] by {
        assert(s[0] < s[1] && s[1] < s[2] && s[2] < s[3] && s[3] < s[4] && s[4] < s[5] && s[5]
            < s[6] && s[6] < s[7] && s[7] < s[8] && s[8] < s[9] && s[9] < s[10] && s[10] < s[11]
            && s[11] < s[12] && s[12] < s[13] && s[13] < s[14] && s[14] < s[15] && s[15] < s[16]
            && s[16] < s[17] && s[17] < s[18] && s[18] < s[19] && s[19] < s[20] && s[20] < s[21]
            && s[21] < s[22] && s[22] < s[23] && s[23] < s[24] && s[24] < s[25] && s[25] < s[26]
            && s[26] < s[27] && s[27] < s[28] && s[28] < s[29] && s[29] < s[30] && s[30] < s[31]);
    }
}

/// The table of builds for an image and architecture.
pub open spec fn table_of(t: SyscallTables, file: LoadFile, arch: Arch) -> phf::Map<
    u32,
    phf::Map<&'static str, u16>,
> {
    match (file, arch) {
        (LoadFile::Ntdll, Arch::X64) => *t.ntdll64,
        (LoadFile::Ntdll, Arch::X86) => *t.ntdll32,
        (_, Arch::X64) => *t.win64,
        (_, Arch::X86) => *t.win32,
    }
}

/// The syscalls that the tables record for `version`, as mathematical values.
pub open spec fn static_result(
    t: SyscallTables,
    version: u32,
    arch: Arch,
    file: LoadFile,
    r: Result<Seq<(Seq<char>, int)>, LoadError>,
) -> bool {
    let builds = known_builds();
    if version < builds[0] || version > builds.last() {
        r == Err::<Seq<(Seq<char>, int)>, LoadError>(LoadError::UnsupportedVersion(version))
    } else {
        let m = table_of(t, file, arch);
        if build_entries(m).len() == 0 {
            r == Err::<Seq<(Seq<char>, int)>, LoadError>(LoadError::ImageNotFound)
        } else {
            match table_lookup(m, serving_build(builds, version) as u32) {
                None => r == Err::<Seq<(Seq<char>, int)>, LoadError>(LoadError::ImageNotFound),
                Some(table) => match r {
                    Err(_) => false,
                    Ok(out) => is_stable_sort(out, table_view(table)),
                },
            }
        }
    }
}

/// The syscalls of a table as mathematical values.
pub open spec fn table_view(t: phf::Map<&'static str, u16>) -> Seq<(Seq<char>, int)> {
    table_entries(t).map_values(|e: (Seq<char>, u16)| (e.0, e.1 as int))
}

/// The syscalls of the table that a lookup found, in the table's order;
/// `ImageNotFound` where it found none.
pub fn copy(found: Option<&'static phf::Map<&'static str, u16>>) -> (r: Result<
    Vec<(String, u64)>,
    LoadError,
>)
    ensures
        match found {
            Some(t) => (r matches Ok(v) && entries_view(v@) == table_view(*t)),
            None => (r matches Err(e) && e == LoadError::ImageNotFound),
        },
{
    match found {
        Some(inner) => Ok(table_syscalls(inner)),
        None => Err(LoadError::ImageNotFound),
    }
}

/// The syscalls that the tables record for the last known build not above
/// `version`, ordered by index; `ImageNotFound` where the table of builds
/// for the image and architecture is empty or lacks that build.
pub fn method_static(version: u32, arch: &Arch, file: &LoadFile, tables: &SyscallTables) -> (r:
    Result<Vec<(String, u32)>, LoadError>)
    requires
        *file is Ntdll || *file is Win32u,
    ensures
        static_result(*tables, version, *arch, *file, crate::images::ntdll::result_view(r)),
{
    let builds = versions();
    let first = builds[0];
    let last = builds[builds.len() - 1];
    if version < first || version > last {
        return Err(LoadError::UnsupportedVersion(version));
    }
    proof {
        lemma_known_builds_ascending();
    }
    let mut simple = last;
    let mut found = false;
    let n = builds.len();
    let mut i: usize = 0;
    while i + 1 < n && !found
        invariant
            n == builds@.len(),
            n == 32,
            builds@ == known_builds(),
            ascending(builds@),
            i + 1 <= n,
            first == builds@[0],
            last == builds@[n - 1],
            first <= version <= last,
            !found ==> simple == last && builds@[i as int] <= version,
            found ==> simple == serving_build(builds@, version),
        decreases n - i + if found { 0int } else { 1int },
    {
        let low = builds[i];
        let high = builds[i + 1];
        if version >= low && version < high {
            proof {
                lemma_serving(builds@, version, i as int);
            }
            simple = low;
            found = true;
        } else {
            i = i + 1;
        }
    }
    proof {
        if !found {
            lemma_serving(builds@, version, n - 1);
        }
    }
    let table = match (file, arch) {
        (LoadFile::Ntdll, Arch::X64) => tables.ntdll64,
        (LoadFile::Ntdll, Arch::X86) => tables.ntdll32,
        (_, Arch::X64) => tables.win64,
        (_, Arch::X86) => tables.win32,
    };
    if table_size(table) == 0 {
        return Err(LoadError::ImageNotFound);
    }
    let out = match copy(table_for_build(table, simple)) {
        Ok(out) => out,
        Err(e) => return Err(e),
    };
    let sorted = sort_by_key(&out);
    proof {
        let sv = entries_view(sorted@);
        let ov = entries_view(out@);
        crate::order::lemma_sort_same_entries(sv, ov);
        assert forall|k: int| 0 <= k < sorted@.len() implies #[trigger] sorted@[k].1 <= u32::MAX by {
            assert(sv[k].1 == sorted@[k].1);
            assert(ov.contains(sv[k]));
            let j = choose|j: int| 0 <= j < ov.len() && ov[j] == sv[k];
            assert(ov[j].1 <= u16::MAX);
        }
    }
    Ok(crate::images::narrow_keys(&sorted))
}

/// The build that serves `v` is the known build at some position `i` with
/// `v` from it up to, not including, the next.
proof fn lemma_serving_at(s: Seq<u32>, v: u32) -> (i: int)
    requires
        ascending(s),
        s.len() > 0,
        s[0] <= v,
    ensures
        0 <= i < s.len(),
        s[i] <= v,
        i + 1 == s.len() || v < s[i + 1],
        serving_build(s, v) == s[i],
    decreases s.len(),
{
    if s.last() <= v {
        s.len() - 1
    } else {
        let r = s.drop_last();
        assert(ascending(r)) by {
            assert forall|k: int| 0 <= k < r.len() - 1 implies #[trigger] r[k] < r[k + 1] by {
                assert(s[k] < s[k + 1]);
            }
        }
        let i = lemma_serving_at(r, v);
        assert(r[i] == s[i]);
        if i + 1 < r.len() {
            assert(r[i + 1] == s[i + 1]);
        }
        i
    }
}

/// A version inside the known range is served by the greatest known build
/// that is not above it: the tables answer for the version exactly as they
/// answer for that build, and the two answers are equal.
pub proof fn law_static_serving_build(
    t: SyscallTables,
    version: u32,
    arch: Arch,
    file: LoadFile,
    r1: Result<Seq<(Seq<char>, int)>, LoadError>,
    r2: Result<Seq<(Seq<char>, int)>, LoadError>,
)
    requires
        known_builds()[0] <= version <= known_builds().last(),
    ensures
        known_builds().contains(serving_build(known_builds(), version) as u32),
        serving_build(known_builds(), version) <= version,
        forall|k: int|
            0 <= k < known_builds().len() && #[trigger] known_builds()[k] <= version
                ==> known_builds()[k] <= serving_build(known_builds(), version),
        static_result(t, version, arch, file, r1) == static_result(
            t,
            serving_build(known_builds(), version) as u32,
            arch,
            file,
            r1,
        ),
        static_result(t, version, arch, file, r1) && static_result(
            t,
            serving_build(known_builds(), version) as u32,
            arch,
            file,
            r2,
        ) ==> r1 == r2,
{
    let s = known_builds();
    lemma_known_builds_ascending();
    let i = lemma_serving_at(s, version);
    let w = s[i];
    if i + 1 < s.len() {
        assert(s[i] < s[i + 1]);
    }
    lemma_serving(s, w, i);
    lemma_ascending_chain(s, 0, i);
    lemma_ascending_chain(s, i, s.len() - 1);
    assert forall|k: int|
        0 <= k < s.len() && #[trigger] s[k] <= version implies s[k] <= serving_build(s, version) by {
        if k > i {
            lemma_ascending_chain(s, i + 1, k);
        } else {
            lemma_ascending_chain(s, k, i);
        }
    }
    let m = table_of(t, file, arch);
    if static_result(t, version, arch, file, r1) && static_result(t, w, arch, file, r2) {
        if build_entries(m).len() > 0 {
            if let Some(table) = table_lookup(m, w) {
                lemma_stable_sort_unique(r1->Ok_0, r2->Ok_0, table_view(table));
            }
        }
    }
}

} // verus!
