//! The builtin metrics: their names, and the computations that turn the
//! system's raw readings into the strings a template shows.
use vstd::prelude::*;
use crate::table::Table;
use crate::space::{trim, trimmed};
use crate::text::{decimal, decimal_of, digit_char, push_char, slice_string, str_eq};

verus! {

/// The builtin metrics a template may name.
#[derive(Clone, Copy, Debug, PartialEq, Eq, Structural)]
pub enum Builtin {
    Load1,
    Load5,
    Load15,
    Hostname,
    KernelVersion,
    MemoryUsage,
    SwapUsage,
    CpuCores,
    RootDiskUsage,
    DataDiskUsage,
    CudaVersion,
    LoginUser,
}

/// The registry of builtins by name.
pub open spec fn builtin_names() -> Map<Seq<char>, Builtin> {
    map![
        "load1"@ => Builtin::Load1,
        "load5"@ => Builtin::Load5,
        "load15"@ => Builtin::Load15,
        "hostname"@ => Builtin::Hostname,
        "kernel_version"@ => Builtin::KernelVersion,
        "memory_usage"@ => Builtin::MemoryUsage,
        "swap_usage"@ => Builtin::SwapUsage,
        "cpu_cores"@ => Builtin::CpuCores,
        "root_disk_usage"@ => Builtin::RootDiskUsage,
        "data_disk_usage"@ => Builtin::DataDiskUsage,
        "cuda_version"@ => Builtin::CudaVersion,
        "login_user"@ => Builtin::LoginUser,
    ]
}

/// The builtins by name.
pub fn build_builtins() -> (r: Table<Builtin>)
    ensures
        r@ == builtin_names(),
{
    let mut t = Table::new();
    t.insert(String::from_str("load1"), Builtin::Load1);
    t.insert(String::from_str("load5"), Builtin::Load5);
    t.insert(String::from_str("load15"), Builtin::Load15);
    t.insert(String::from_str("hostname"), Builtin::Hostname);
    t.insert(String::from_str("kernel_version"), Builtin::KernelVersion);
    t.insert(String::from_str("memory_usage"), Builtin::MemoryUsage);
    t.insert(String::from_str("swap_usage"), Builtin::SwapUsage);
    t.insert(String::from_str("cpu_cores"), Builtin::CpuCores);
    t.insert(String::from_str("root_disk_usage"), Builtin::RootDiskUsage);
    t.insert(String::from_str("data_disk_usage"), Builtin::DataDiskUsage);
    t.insert(String::from_str("cuda_version"), Builtin::CudaVersion);
    t.insert(String::from_str("login_user"), Builtin::LoginUser);
    assert(t@ =~= builtin_names());
    t
}

/// Why a metric could not be read.
#[derive(Clone, Copy, Debug, PartialEq, Eq, Structural)]
pub enum ProviderError {
    /// The load-average record lacks the requested field.
    LoadAverageField,
    /// The system reported no host name.
    NoHostname,
    /// The system reported no kernel version.
    NoKernelVersion,
    /// No disk is mounted at the requested place.
    NoMount,
    /// Neither version file gives a toolkit version.
    NoCudaVersion,
    /// An ancestor process has no command line.
    MalformedCommandLine,
    /// The login daemon's command line names no user.
    UnknownLoginUser,
}

/// ASCII whitespace, as `str::split_ascii_whitespace` understands it.
pub open spec fn is_ascii_space(c: char) -> bool {
    c == ' ' || c == '\t' || c == '\n' || c == '\x0C' || c == '\r'
}

/// Length of the leading run of non-whitespace characters.
pub open spec fn word_len(s: Seq<char>) -> nat
    decreases s.len(),
{
    if s.len() == 0 || is_ascii_space(s[0]) {
        0
    } else {
        1 + word_len(s.drop_first())
    }
}

/// The whitespace-separated fields of `s`.
pub open spec fn fields(s: Seq<char>) -> Seq<Seq<char>>
    decreases s.len(),
{
    if s.len() == 0 {
        Seq::empty()
    } else if is_ascii_space(s[0]) {
        fields(s.drop_first())
    } else {
        let k = word_len(s) as int;
        if 0 < k <= s.len() {
            seq![s.take(k)] + fields(s.skip(k))
        } else {
            Seq::empty()
        }
    }
}

proof fn lemma_word_len_exact(s: Seq<char>, n: int)
    requires
        0 <= n <= s.len(),
        forall|i: int| 0 <= i < n ==> !is_ascii_space(#[trigger] s[i]),
        n == s.len() || is_ascii_space(s[n]),
    ensures
        word_len(s) == n,
    decreases n,
{
    if n > 0 {
        let t = s.drop_first();
        assert forall|i: int| 0 <= i < n - 1 implies !is_ascii_space(#[trigger] t[i]) by {
            assert(t[i] == s[i + 1]);
        }
        if n - 1 < t.len() {
            assert(t[n - 1] == s[n]);
        }
        lemma_word_len_exact(t, n - 1);
    }
}

/// The field of `s` at `index`, counting whitespace-separated fields from 0.
pub fn nth_field(s: &str, index: usize) -> (r: Option<String>)
    ensures
        r.is_some() == (index < fields(s@).len()),
        r.is_some() ==> r.unwrap()@ == fields(s@)[index as int],
{
    let n = s.unicode_len();
    let mut i: usize = 0;
    let mut seen: usize = 0;
    assert(s@.skip(0) == s@);
    while i < n
        invariant
            n == s@.len(),
            i <= n,
            seen <= index,
            fields(s@.skip(i as int)).len() + seen == fields(s@).len(),
            fields(s@).skip(seen as int) == fields(s@.skip(i as int)),
        decreases n - i,
    {
        let ghost rest = s@.skip(i as int);
        if s.get_char(i) == ' ' || s.get_char(i) == '\t' || s.get_char(i) == '\n' || s.get_char(i)
            == '\x0C' || s.get_char(i) == '\r' {
            assert(rest[0] == s@[i as int]);
            assert(rest.drop_first() == s@.skip(i + 1));
            i = i + 1;
        } else {
            let mut j: usize = i;
            while j < n && !(s.get_char(j) == ' ' || s.get_char(j) == '\t' || s.get_char(j) == '\n'
                || s.get_char(j) == '\x0C' || s.get_char(j) == '\r')
                invariant
                    n == s@.len(),
                    i <= j <= n,
                    forall|t: int| i <= t < j ==> !is_ascii_space(#[trigger] s@[t]),
                decreases n - j,
            {
                j = j + 1;
            }
            proof {
                assert forall|t: int| 0 <= t < j - i implies !is_ascii_space(#[trigger] rest[t]) by {
                    assert(rest[t] == s@[i + t]);
                }
                if j < n {
                    assert(rest[j - i] == s@[j as int]);
                }
                lemma_word_len_exact(rest, j - i);
                assert(rest[0] == s@[i as int]);
                assert(!is_ascii_space(rest[0]));
                assert(rest.take(j - i) == s@.subrange(i as int, j as int));
                assert(rest.skip(j - i) == s@.skip(j as int));
                assert(fields(rest) == seq![rest.take(j - i)] + fields(rest.skip(j - i)));
            }
            if seen == index {
                assert(fields(s@).skip(seen as int)[0] == fields(s@)[index as int]);
                return Some(slice_string(s, i, j));
            }
            proof {
                let f = fields(s@);
                assert(f.skip(seen + 1) == f.skip(seen as int).drop_first());
                assert(fields(rest).drop_first() == fields(s@.skip(j as int)));
            }
            seen = seen + 1;
            i = j;
        }
    }
    assert(s@.skip(n as int).len() == 0);
    None
}

/// Whether `s` begins with `p`.
pub open spec fn starts_with(s: Seq<char>, p: Seq<char>) -> bool {
    p.len() <= s.len() && s.take(p.len() as int) == p
}

/// Does `s` begin with `p`?
pub fn has_prefix(s: &str, p: &str) -> (r: bool)
    ensures
        r == starts_with(s@, p@),
{
    let n = p.unicode_len();
    if n > s.unicode_len() {
        return false;
    }
    str_eq(s.substring_char(0, n), p)
}

/// The system readings captured once at the start of a render.
pub struct Snapshot {
    pub cpu_count: u64,
    pub total_memory: u64,
    pub used_memory: u64,
    pub total_swap: u64,
    pub used_swap: u64,
    pub disks: Vec<Disk>,
    pub host_name: Option<String>,
    pub kernel_version: Option<String>,
}

/// A mounted disk.
pub struct Disk {
    pub mount_point: String,
    pub total_space: u64,
    pub available_space: u64,
}

/// Field `index` of the load-average record `loadavg`.
pub open spec fn load_of(loadavg: Seq<char>, index: int) -> Result<Seq<char>, ProviderError> {
    if index < fields(loadavg).len() {
        Ok(fields(loadavg)[index])
    } else {
        Err(ProviderError::LoadAverageField)
    }
}

fn load_field(loadavg: &str, index: usize) -> (r: Result<String, ProviderError>)
    ensures
        r.is_ok() == load_of(loadavg@, index as int).is_ok(),
        r.is_ok() ==> r.unwrap()@ == load_of(loadavg@, index as int).unwrap(),
        r.is_err() ==> r == Err::<String, ProviderError>(ProviderError::LoadAverageField),
{
    match nth_field(loadavg, index) {
        Some(f) => Ok(f),
        None => Err(ProviderError::LoadAverageField),
    }
}

/// The one-minute load average: the first field of the load-average record.
pub fn load1(loadavg: &str) -> (r: Result<String, ProviderError>)
    ensures
        r.is_ok() == load_of(loadavg@, 0).is_ok(),
        r.is_ok() ==> r.unwrap()@ == load_of(loadavg@, 0).unwrap(),
        r.is_err() ==> r == Err::<String, ProviderError>(ProviderError::LoadAverageField),
{
    load_field(loadavg, 0)
}

/// The five-minute load average: the second field of the load-average record.
pub fn load5(loadavg: &str) -> (r: Result<String, ProviderError>)
    ensures
        r.is_ok() == load_of(loadavg@, 1).is_ok(),
        r.is_ok() ==> r.unwrap()@ == load_of(loadavg@, 1).unwrap(),
        r.is_err() ==> r == Err::<String, ProviderError>(ProviderError::LoadAverageField),
{
    load_field(loadavg, 1)
}

/// The fifteen-minute load average: the third field of the load-average record.
pub fn load15(loadavg: &str) -> (r: Result<String, ProviderError>)
    ensures
        r.is_ok() == load_of(loadavg@, 2).is_ok(),
        r.is_ok() ==> r.unwrap()@ == load_of(loadavg@, 2).unwrap(),
        r.is_err() ==> r == Err::<String, ProviderError>(ProviderError::LoadAverageField),
{
    load_field(loadavg, 2)
}

/// The host name of the snapshot.
pub fn hostname(snap: &Snapshot) -> (r: Result<String, ProviderError>)
    ensures
        r.is_ok() == snap.host_name.is_some(),
        r.is_ok() ==> r.unwrap()@ == snap.host_name.unwrap()@,
        r.is_err() ==> r == Err::<String, ProviderError>(ProviderError::NoHostname),
{
    match &snap.host_name {
        Some(h) => Ok(h.clone()),
        None => Err(ProviderError::NoHostname),
    }
}

/// The kernel version of the snapshot.
pub fn kernel_version(snap: &Snapshot) -> (r: Result<String, ProviderError>)
    ensures
        r.is_ok() == snap.kernel_version.is_some(),
        r.is_ok() ==> r.unwrap()@ == snap.kernel_version.unwrap()@,
        r.is_err() ==> r == Err::<String, ProviderError>(ProviderError::NoKernelVersion),
{
    match &snap.kernel_version {
        Some(k) => Ok(k.clone()),
        None => Err(ProviderError::NoKernelVersion),
    }
}

/// `num / den` rounded to the nearest integer, ties to the even one.
pub open spec fn round_even(num: nat, den: nat) -> nat {
    let q = num / den;
    let r = num % den;
    if 2 * r > den || (2 * r == den && q % 2 == 1) {
        q + 1
    } else {
        q
    }
}

fn rounded_ratio(num: u128, den: u128) -> (r: u128)
    requires
        den > 0,
        num / den < u128::MAX,
    ensures
        r == round_even(num as nat, den as nat),
{
    let q = num / den;
    let rem = num % den;
    let half = den - rem;
    // 2 * rem > den, written without overflow
    if rem > half || (rem == half && q % 2 == 1) {
        q + 1
    } else {
        q
    }
}

/// A number of tenths written with one decimal: `123` as `12.3`.
pub open spec fn tenths_text(t: nat) -> Seq<char> {
    decimal_of(t / 10).push('.').push(digit_char(t % 10))
}

/// `used` as a share of `total`, in percent with one decimal; `0.0` where
/// `total` is zero.
pub open spec fn usage_text(used: nat, total: nat) -> Seq<char> {
    if total == 0 {
        tenths_text(0)
    } else {
        tenths_text(round_even(used * 1000, total))
    }
}

fn usage(used: u64, total: u64) -> (r: String)
    ensures
        r@ == usage_text(used as nat, total as nat),
{
    let t: u128 = if total == 0 {
        0
    } else {
        let num: u128 = (used as u128) * 1000;
        let den: u128 = total as u128;
        assert(num as int / den as int <= num as int) by (nonlinear_arith)
            requires den > 0, num >= 0;
        rounded_ratio(num, den)
    };
    let mut r = decimal(t / 10);
    push_char(&mut r, '.');
    push_char(&mut r, ((t % 10) as u8 + 48) as char);
    r
}

/// Memory in use, in percent of the total, with one decimal.
pub fn memory_usage(snap: &Snapshot) -> (r: Result<String, ProviderError>)
    ensures
        r.is_ok(),
        r.unwrap()@ == usage_text(snap.used_memory as nat, snap.total_memory as nat),
{
    Ok(usage(snap.used_memory, snap.total_memory))
}

/// Swap in use, in percent of the total, with one decimal.
pub fn swap_usage(snap: &Snapshot) -> (r: Result<String, ProviderError>)
    ensures
        r.is_ok(),
        r.unwrap()@ == usage_text(snap.used_swap as nat, snap.total_swap as nat),
{
    Ok(usage(snap.used_swap, snap.total_swap))
}

/// The number of processors.
pub fn cpu_cores(snap: &Snapshot) -> (r: Result<String, ProviderError>)
    ensures
        r.is_ok(),
        r.unwrap()@ == decimal_of(snap.cpu_count as nat),
{
    Ok(decimal(snap.cpu_count as u128))
}

/// Space in use on a disk, in whole percent; `0` where nothing is used by this
/// measure (no space, or at least all of it available).
pub open spec fn disk_text(total: nat, available: nat) -> Seq<char> {
    if total == 0 || available >= total {
        decimal_of(0)
    } else {
        decimal_of(round_even(((total - available) * 100) as nat, total))
    }
}

/// Index of the first disk mounted at `mount`, if any.
pub open spec fn mount_index(disks: Seq<Disk>, mount: Seq<char>) -> Option<int>
    decreases disks.len(),
{
    if disks.len() == 0 {
        None
    } else if disks[0].mount_point@ == mount {
        Some(0)
    } else {
        match mount_index(disks.drop_first(), mount) {
            Some(i) => Some(i + 1),
            None => None,
        }
    }
}

/// Usage of the disk mounted at `mount`.
pub open spec fn disk_usage_of(disks: Seq<Disk>, mount: Seq<char>) -> Result<Seq<char>, ProviderError> {
    match mount_index(disks, mount) {
        Some(i) => Ok(disk_text(disks[i].total_space as nat, disks[i].available_space as nat)),
        None => Err(ProviderError::NoMount),
    }
}

proof fn lemma_mount_index(disks: Seq<Disk>, mount: Seq<char>, i: int)
    requires
        0 <= i <= disks.len(),
        forall|t: int| 0 <= t < i ==> (#[trigger] disks[t]).mount_point@ != mount,
    ensures
        i < disks.len() && disks[i].mount_point@ == mount ==> mount_index(disks, mount) == Some(i),
        i == disks.len() ==> mount_index(disks, mount) == None::<int>,
    decreases i,
{
    if i > 0 {
        let t = disks.drop_first();
        assert forall|u: int| 0 <= u < i - 1 implies (#[trigger] t[u]).mount_point@ != mount by {
            assert(t[u] == disks[u + 1]);
        }
        if i < disks.len() {
            assert(t[i - 1] == disks[i]);
        }
        lemma_mount_index(t, mount, i - 1);
    }
}

fn disk_usage(snap: &Snapshot, mount: &str) -> (r: Result<String, ProviderError>)
    ensures
        r.is_ok() == disk_usage_of(snap.disks@, mount@).is_ok(),
        r.is_ok() ==> r.unwrap()@ == disk_usage_of(snap.disks@, mount@).unwrap(),
        r.is_err() ==> r == Err::<String, ProviderError>(ProviderError::NoMount),
{
    let mut i: usize = 0;
    while i < snap.disks.len()
        invariant
            i <= snap.disks@.len(),
            forall|t: int| 0 <= t < i ==> (#[trigger] snap.disks@[t]).mount_point@ != mount@,
        decreases snap.disks@.len() - i,
    {
        let d = &snap.disks[i];
        if str_eq(d.mount_point.as_str(), mount) {
            proof {
                lemma_mount_index(snap.disks@, mount@, i as int);
            }
            if d.total_space == 0 || d.available_space >= d.total_space {
                return Ok(decimal(0));
            }
            let used = (d.total_space - d.available_space) as u128;
            let num: u128 = used * 100;
            let den: u128 = d.total_space as u128;
            assert(num as int / den as int <= num as int) by (nonlinear_arith)
                requires den > 0, num >= 0;
            let p = rounded_ratio(num, den);
            return Ok(decimal(p));
        }
        i = i + 1;
    }
    proof {
        lemma_mount_index(snap.disks@, mount@, i as int);
    }
    Err(ProviderError::NoMount)
}

/// Usage of the disk mounted at `/`, in whole percent.
pub fn root_disk_usage(snap: &Snapshot) -> (r: Result<String, ProviderError>)
    ensures
        r.is_ok() == disk_usage_of(snap.disks@, "/"@).is_ok(),
        r.is_ok() ==> r.unwrap()@ == disk_usage_of(snap.disks@, "/"@).unwrap(),
        r.is_err() ==> r == Err::<String, ProviderError>(ProviderError::NoMount),
{
    disk_usage(snap, "/")
}

/// Usage of the disk mounted at `/data`, in whole percent.
pub fn data_disk_usage(snap: &Snapshot) -> (r: Result<String, ProviderError>)
    ensures
        r.is_ok() == disk_usage_of(snap.disks@, "/data"@).is_ok(),
        r.is_ok() ==> r.unwrap()@ == disk_usage_of(snap.disks@, "/data"@).unwrap(),
        r.is_err() ==> r == Err::<String, ProviderError>(ProviderError::NoMount),
{
    disk_usage(snap, "/data")
}

/// The string at `outer.inner` of the JSON document `text`, if the document
/// parses and holds a string there.
pub uninterp spec fn json_str_at(text: Seq<char>, outer: Seq<char>, inner: Seq<char>) -> Option<Seq<char>>;

/// Relies on `serde_json::from_str` into a `serde_json::Value`, then
/// `Value::get` twice and `Value::as_str`.
#[verifier::external_body]
fn json_string_at(text: &str, outer: &str, inner: &str) -> (r: Option<String>)
    ensures
        r.is_some() == json_str_at(text@, outer@, inner@).is_some(),
        r.is_some() ==> r.unwrap()@ == json_str_at(text@, outer@, inner@).unwrap(),
{
    let v: serde_json::Value = serde_json::from_str(text).ok()?;
    let field = v.get(outer)?.get(inner)?.as_str()?;
    Some(field.to_owned())
}

/// The toolkit version from the contents of the structured version file, or
/// else from those of the legacy text file after its fixed prefix.
pub open spec fn cuda_of(json: Option<String>, legacy: Option<String>) -> Result<Seq<char>, ProviderError> {
    if json.is_some() && json_str_at(json.unwrap()@, "cuda"@, "version"@).is_some() {
        Ok(json_str_at(json.unwrap()@, "cuda"@, "version"@).unwrap())
    } else if legacy.is_some() && starts_with(legacy.unwrap()@, "CUDA Version"@) {
        Ok(trimmed(legacy.unwrap()@.skip("CUDA Version"@.len() as int)))
    } else {
        Err(ProviderError::NoCudaVersion)
    }
}

/// The toolkit version, from the contents of the two version files where
/// they could be read.
pub fn cuda_version(json: Option<String>, legacy: Option<String>) -> (r: Result<String, ProviderError>)
    ensures
        r.is_ok() == cuda_of(json, legacy).is_ok(),
        r.is_ok() ==> r.unwrap()@ == cuda_of(json, legacy).unwrap(),
        r.is_err() ==> r == Err::<String, ProviderError>(ProviderError::NoCudaVersion),
{
    if let Some(t) = &json {
        if let Some(v) = json_string_at(t.as_str(), "cuda", "version") {
            return Ok(v);
        }
    }
    if let Some(t) = &legacy {
        let prefix = "CUDA Version";
        if has_prefix(t.as_str(), prefix) {
            let n = prefix.unicode_len();
            let rest = t.as_str().substring_char(n, t.as_str().unicode_len());
            return Ok(trim(rest));
        }
    }
    Err(ProviderError::NoCudaVersion)
}

/// Index of the first `@` in `f`, or its length.
pub open spec fn at_index(f: Seq<char>) -> nat
    decreases f.len(),
{
    if f.len() == 0 || f[0] == '@' {
        0
    } else {
        1 + at_index(f.drop_first())
    }
}

proof fn lemma_at_index(f: Seq<char>, n: int)
    requires
        0 <= n <= f.len(),
        forall|i: int| 0 <= i < n ==> #[trigger] f[i] != '@',
        n == f.len() || f[n] == '@',
    ensures
        at_index(f) == n,
    decreases n,
{
    if n > 0 {
        let t = f.drop_first();
        assert forall|i: int| 0 <= i < n - 1 implies #[trigger] t[i] != '@' by {
            assert(t[i] == f[i + 1]);
        }
        if n - 1 < t.len() {
            assert(t[n - 1] == f[n]);
        }
        lemma_at_index(t, n - 1);
    }
}

/// The user named by a login daemon's command line: the second field of its
/// first argument, up to any `@`, trimmed.
pub open spec fn daemon_user(arg: Seq<char>) -> Result<Seq<char>, ProviderError> {
    let fs = fields(arg);
    if fs.len() < 2 {
        Err(ProviderError::UnknownLoginUser)
    } else {
        let name = trimmed(fs[1].take(at_index(fs[1]) as int));
        if name.len() == 0 {
            Err(ProviderError::UnknownLoginUser)
        } else {
            Ok(name)
        }
    }
}

/// The login user, given the command lines of the ancestors of this process,
/// parent first, and the user the system reports for this process.
pub open spec fn login_of(ancestors: Seq<Seq<Seq<char>>>, user: Seq<char>) -> Result<Seq<char>, ProviderError>
    decreases ancestors.len(),
{
    if ancestors.len() == 0 {
        Ok(user)
    } else if ancestors[0].len() == 0 {
        Err(ProviderError::MalformedCommandLine)
    } else if starts_with(ancestors[0][0], "sshd"@) {
        daemon_user(ancestors[0][0])
    } else {
        login_of(ancestors.drop_first(), user)
    }
}

fn user_of_daemon(arg: &str) -> (r: Result<String, ProviderError>)
    ensures
        r.is_ok() == daemon_user(arg@).is_ok(),
        r.is_ok() ==> r.unwrap()@ == daemon_user(arg@).unwrap(),
        r.is_err() ==> r == Err::<String, ProviderError>(ProviderError::UnknownLoginUser),
{
    match nth_field(arg, 1) {
        None => Err(ProviderError::UnknownLoginUser),
        Some(f) => {
            let fs = f.as_str();
            let n = fs.unicode_len();
            let mut k: usize = 0;
            while k < n && fs.get_char(k) != '@'
                invariant
                    n == fs@.len(),
                    k <= n,
                    forall|i: int| 0 <= i < k ==> #[trigger] fs@[i] != '@',
                decreases n - k,
            {
                k = k + 1;
            }
            proof {
                lemma_at_index(fs@, k as int);
            }
            let name = trim(fs.substring_char(0, k));
            if name.unicode_len() == 0 {
                Err(ProviderError::UnknownLoginUser)
            } else {
                Ok(name)
            }
        },
    }
}

/// The user who logged in: walks the ancestors, parent first, to the first
/// whose command line starts with `sshd` and takes the user it names; where
/// no ancestor does, the user the system reports. An ancestor with an empty
/// command line is an error.
pub fn login_user(ancestors: &Vec<Vec<String>>, user: String) -> (r: Result<String, ProviderError>)
    ensures
        r.is_ok() == login_of(ancestors.deep_view(), user@).is_ok(),
        r.is_ok() ==> r.unwrap()@ == login_of(ancestors.deep_view(), user@).unwrap(),
        r.is_err() ==> r == Err::<String, ProviderError>(login_of(ancestors.deep_view(), user@)->Err_0),
{
    let ghost all = ancestors.deep_view();
    let mut i: usize = 0;
    assert(all.skip(0) == all);
    while i < ancestors.len()
        invariant
            all == ancestors.deep_view(),
            i <= ancestors@.len(),
            login_of(all, user@) == login_of(all.skip(i as int), user@),
        decreases ancestors@.len() - i,
    {
        let cmd = &ancestors[i];
        let ghost rest = all.skip(i as int);
        assert(rest[0] == cmd.deep_view());
        assert(rest.drop_first() == all.skip(i + 1));
        if cmd.len() == 0 {
            return Err(ProviderError::MalformedCommandLine);
        }
        assert(rest[0][0] == cmd[0]@);
        if has_prefix(cmd[0].as_str(), "sshd") {
            return user_of_daemon(cmd[0].as_str());
        }
        i = i + 1;
    }
    assert(all.skip(i as int).len() == 0);
    Ok(user)
}

/// Whether the walk over ancestors can stop at one with command line `cmd`:
/// `login_user` decides there, with an error or with the user it names.
pub fn ends_walk(cmd: &Vec<String>) -> (r: bool)
    ensures
        r == (cmd@.len() == 0 || starts_with(cmd@[0]@, "sshd"@)),
{
    cmd.len() == 0 || has_prefix(cmd[0].as_str(), "sshd")
}

} // verus!
