//! Version constants, the per-user directories, the clock and the machine id.

use sha2::Digest;
use vstd::prelude::*;
use crate::paths::{path_join, spec_join};
use crate::text::{bytes_view, lines, spec_lines, spec_utf8_lossy, utf8_lossy};

verus! {

/// The daemon version; the disk cache is keyed by it.
pub const VERSION: &'static str = "0.1.0";

/// Upstream Figma desktop version we shape our responses after.
pub const UPSTREAM_PACKAGE: &'static str = "126.4.11";

/// HTTP response schema version.
pub const UPSTREAM_API_VERSION: u32 = 24;

/// The operating system the daemon runs on; it decides where fonts come
/// from and which of them count as user-installed.
#[derive(Clone, Copy, PartialEq, Eq, Structural, Debug)]
pub enum TargetOs {
    MacOs,
    Linux,
    Other,
}

// ---------------------------------------------------------------------------
// The clock.

#[verifier::external_type_specification]
#[verifier::external_body]
pub struct ExSystemTime(std::time::SystemTime);

/// `SystemTime::now`: the current time of the system clock.
#[verifier::external_body]
fn system_time_now() -> std::time::SystemTime {
    std::time::SystemTime::now()
}

/// `SystemTime::duration_since(UNIX_EPOCH)`: the time elapsed since the
/// epoch; `None` for a time before it.
#[verifier::external_body]
fn since_unix_epoch(t: &std::time::SystemTime) -> Option<std::time::Duration> {
    t.duration_since(std::time::UNIX_EPOCH).ok()
}

/// `Duration::as_secs`: the whole seconds of a duration.
#[verifier::external_body]
fn duration_secs(d: &std::time::Duration) -> u64 {
    d.as_secs()
}

/// Seconds since the Unix epoch, 0 for a clock set before it.
pub fn secs_or_zero(since_epoch: Option<u64>) -> (secs: u64)
    ensures
        secs == match since_epoch {
            Some(s) => s,
            None => 0,
        },
{
    match since_epoch {
        Some(s) => s,
        None => 0,
    }
}

/// The current Unix time in seconds (0 if the clock reads before 1970).
pub fn now_secs() -> u64 {
    let now = system_time_now();
    let secs = match since_unix_epoch(&now) {
        Some(d) => Some(duration_secs(&d)),
        None => None,
    };
    secs_or_zero(secs)
}

// ---------------------------------------------------------------------------
// Directories.

pub open spec fn app_dir_name() -> Seq<u8> {
    seq![0x66u8, 0x69, 0x67, 0x6D, 0x61, 0x2D, 0x61, 0x67, 0x65, 0x6E, 0x74]
}

pub open spec fn dot_config() -> Seq<u8> {
    seq![0x2Eu8, 0x63, 0x6F, 0x6E, 0x66, 0x69, 0x67]
}

pub open spec fn dot_cache() -> Seq<u8> {
    seq![0x2Eu8, 0x63, 0x61, 0x63, 0x68, 0x65]
}

/// `<env dir>/figma-agent`, or `<home>/<home_subdir>/figma-agent` when the
/// environment variable is unset (paths joined as `PathBuf::join` joins
/// them, so an absolute `home_subdir` stands alone); `None` when neither is
/// set.
pub open spec fn spec_xdg_dir(env_value: Option<Seq<u8>>, home: Option<Seq<u8>>, home_subdir: Seq<u8>) -> Option<
    Seq<u8>,
> {
    let base = match env_value {
        Some(v) => Some(v),
        None => match home {
            Some(h) => Some(spec_join(h, home_subdir)),
            None => None,
        },
    };
    match base {
        Some(b) => Some(spec_join(b, app_dir_name())),
        None => None,
    }
}

pub open spec fn opt_view(o: Option<Vec<u8>>) -> Option<Seq<u8>> {
    match o {
        Some(v) => Some(v@),
        None => None,
    }
}

fn app_dir_bytes() -> (v: Vec<u8>)
    ensures
        v@ == app_dir_name(),
{
    let v = vec![0x66u8, 0x69, 0x67, 0x6D, 0x61, 0x2D, 0x61, 0x67, 0x65, 0x6E, 0x74];
    assert(v@ =~= app_dir_name());
    v
}

/// The per-user directory of the daemon, given the value of the XDG
/// variable and of `HOME` (`None` for an unset variable).
pub fn xdg_dir(env_value: Option<Vec<u8>>, home: Option<Vec<u8>>, home_subdir: &[u8]) -> (dir: Option<
    Vec<u8>,
>)
    ensures
        opt_view(dir) == spec_xdg_dir(opt_view(env_value), opt_view(home), home_subdir@),
{
    let base = match env_value {
        Some(v) => v,
        None => match home {
            Some(h) => path_join(h.as_slice(), home_subdir),
            None => {
                return None;
            },
        },
    };
    let name = app_dir_bytes();
    Some(path_join(base.as_slice(), name.as_slice()))
}

/// `$XDG_CONFIG_HOME/figma-agent` or `~/.config/figma-agent`, used on macOS
/// too so there is one config location across platforms.
pub fn config_dir(xdg_config_home: Option<Vec<u8>>, home: Option<Vec<u8>>) -> (dir: Option<Vec<u8>>)
    ensures
        opt_view(dir) == spec_xdg_dir(opt_view(xdg_config_home), opt_view(home), dot_config()),
{
    let sub = vec![0x2Eu8, 0x63, 0x6F, 0x6E, 0x66, 0x69, 0x67];
    assert(sub@ =~= dot_config());
    xdg_dir(xdg_config_home, home, sub.as_slice())
}

/// `$XDG_CACHE_HOME/figma-agent` or `~/.cache/figma-agent`.
pub fn cache_dir(xdg_cache_home: Option<Vec<u8>>, home: Option<Vec<u8>>) -> (dir: Option<Vec<u8>>)
    ensures
        opt_view(dir) == spec_xdg_dir(opt_view(xdg_cache_home), opt_view(home), dot_cache()),
{
    let sub = vec![0x2Eu8, 0x63, 0x61, 0x63, 0x68, 0x65];
    assert(sub@ =~= dot_cache());
    xdg_dir(xdg_cache_home, home, sub.as_slice())
}

// ---------------------------------------------------------------------------
// The machine id.

/// SHA-256 of a byte string.
pub uninterp spec fn spec_sha256(data: Seq<u8>) -> Seq<u8>;

/// `sha2::Sha256::digest`: the 32-byte SHA-256 digest of `data`.
#[verifier::external_body]
fn sha256_digest(data: &[u8]) -> (digest: Vec<u8>)
    ensures
        digest@ == spec_sha256(data@),
        digest@.len() == 32,
{
    sha2::Sha256::digest(data).to_vec()
}

pub open spec fn hex_digit(v: int) -> char {
    if v < 10 {
        (0x30 + v) as char
    } else {
        (0x61 + v - 10) as char
    }
}

/// Lowercase hexadecimal, two digits per byte, high nibble first.
pub open spec fn spec_hex(data: Seq<u8>) -> Seq<char>
    decreases data.len(),
{
    if data.len() == 0 {
        Seq::empty()
    } else {
        spec_hex(data.drop_last()) + seq![
            hex_digit(data.last() as int / 16),
            hex_digit(data.last() as int % 16),
        ]
    }
}

proof fn lemma_hex_len(data: Seq<u8>)
    ensures
        spec_hex(data).len() == 2 * data.len(),
    decreases data.len(),
{
    if data.len() > 0 {
        lemma_hex_len(data.drop_last());
    }
}

/// `hex::encode`: lowercase hexadecimal, two digits per byte.
#[verifier::external_body]
fn hex_encode(data: &[u8]) -> (s: String)
    ensures
        s@ == spec_hex(data@),
{
    hex::encode(data)
}

/// The salt upstream mixes into the platform UUID:
/// "figma_agent_machine_id_salt_v1".
pub open spec fn machine_id_salt() -> Seq<u8> {
    seq![
        0x66u8, 0x69, 0x67, 0x6D, 0x61, 0x5F, 0x61, 0x67, 0x65, 0x6E, 0x74, 0x5F, 0x6D, 0x61,
        0x63, 0x68, 0x69, 0x6E, 0x65, 0x5F, 0x69, 0x64, 0x5F, 0x73, 0x61, 0x6C, 0x74, 0x5F,
        0x76, 0x31,
    ]
}

fn machine_id_salt_bytes() -> (v: Vec<u8>)
    ensures
        v@ == machine_id_salt(),
{
    let v = vec![
        0x66u8, 0x69, 0x67, 0x6D, 0x61, 0x5F, 0x61, 0x67, 0x65, 0x6E, 0x74, 0x5F, 0x6D, 0x61,
        0x63, 0x68, 0x69, 0x6E, 0x65, 0x5F, 0x69, 0x64, 0x5F, 0x73, 0x61, 0x6C, 0x74, 0x5F,
        0x76, 0x31,
    ];
    assert(v@ =~= machine_id_salt());
    v
}

pub open spec fn spec_machine_id(uuid: Option<Seq<u8>>) -> Seq<char> {
    let u = match uuid {
        Some(u) => u,
        None => Seq::empty(),
    };
    spec_hex(spec_sha256(u + machine_id_salt()))
}

/// SHA-256(platform UUID + salt) as lowercase hex; an unknown UUID counts
/// as empty.
pub fn machine_id(uuid: Option<Vec<u8>>) -> (id: String)
    ensures
        id@ == spec_machine_id(opt_view(uuid)),
        id@.len() == 64,
{
    let mut data: Vec<u8> = match uuid {
        Some(u) => u,
        None => Vec::new(),
    };
    let ghost start = data@;
    let salt = machine_id_salt_bytes();
    for i in 0..salt.len()
        invariant
            data@ == start + salt@.take(i as int),
    {
        data.push(salt[i]);
        assert(salt@.take(i + 1) =~= salt@.take(i as int).push(salt@[i as int]));
    }
    assert(salt@.take(salt@.len() as int) =~= salt@);
    let digest = sha256_digest(data.as_slice());
    proof {
        lemma_hex_len(digest@);
    }
    hex_encode(digest.as_slice())
}

// ---------------------------------------------------------------------------
// The platform UUID.

pub open spec fn quote() -> u8 {
    0x22
}

/// "IOPlatformUUID"
pub open spec fn uuid_key() -> Seq<u8> {
    seq![0x49u8, 0x4F, 0x50, 0x6C, 0x61, 0x74, 0x66, 0x6F, 0x72, 0x6D, 0x55, 0x55, 0x49, 0x44]
}

pub open spec fn contains_at(line: Seq<u8>, pat: Seq<u8>, i: int) -> bool {
    0 <= i && i + pat.len() <= line.len() && line.subrange(i, i + pat.len()) == pat
}

pub open spec fn contains_bytes(line: Seq<u8>, pat: Seq<u8>) -> bool {
    exists|i: int| contains_at(line, pat, i)
}

/// The positions of the double quotes in a line, in order.
pub open spec fn quote_positions(line: Seq<u8>) -> Seq<int>
    decreases line.len(),
{
    if line.len() == 0 {
        Seq::empty()
    } else if line.last() == quote() {
        quote_positions(line.drop_last()).push(line.len() - 1)
    } else {
        quote_positions(line.drop_last())
    }
}

/// The value on an ioreg line `"IOPlatformUUID" = "XXXX-..."`: what stands
/// between its third and fourth double quote; `None` with fewer quotes.
pub open spec fn spec_quoted_value(line: Seq<u8>) -> Option<Seq<u8>> {
    let q = quote_positions(line);
    if q.len() < 4 {
        None
    } else {
        Some(line.subrange(q[2] + 1, q[3]))
    }
}

/// The first line (from `from` on) that mentions the key.
pub open spec fn first_key_line(ls: Seq<Seq<u8>>, from: int) -> Option<int>
    decreases ls.len() - from,
{
    if from < 0 || from >= ls.len() {
        None
    } else if contains_bytes(ls[from], uuid_key()) {
        Some(from)
    } else {
        first_key_line(ls, from + 1)
    }
}

/// The platform UUID in `ioreg -d2 -c IOPlatformExpertDevice` output: the
/// quoted value on the first line mentioning IOPlatformUUID.
pub open spec fn spec_uuid_from_ioreg(stdout: Seq<u8>) -> Option<Seq<u8>> {
    let ls = spec_lines(spec_utf8_lossy(stdout));
    match first_key_line(ls, 0) {
        Some(k) => spec_quoted_value(ls[k]),
        None => None,
    }
}

fn contains_key(line: &Vec<u8>) -> (res: bool)
    ensures
        res == contains_bytes(line@, uuid_key()),
{
    let key = vec![0x49u8, 0x4F, 0x50, 0x6C, 0x61, 0x74, 0x66, 0x6F, 0x72, 0x6D, 0x55, 0x55, 0x49, 0x44];
    assert(key@ =~= uuid_key());
    let n = line.len();
    let m = key.len();
    if n < m {
        return false;
    }
    for i in 0..n - m + 1
        invariant
            n == line@.len(),
            m == key@.len(),
            key@ == uuid_key(),
            m <= n,
            forall|j: int| 0 <= j < i ==> !contains_at(line@, key@, j),
    {
        let mut all = true;
        for k in 0..m
            invariant
                i + m <= n,
                n == line@.len(),
                m == key@.len(),
                all == (forall|t: int| 0 <= t < k ==> line@[i + t] == key@[t]),
        {
            if line[i + k] != key[k] {
                all = false;
            }
        }
        if all {
            assert(line@.subrange(i as int, i + m) =~= key@);
            assert(contains_at(line@, uuid_key(), i as int));
            return true;
        } else {
            assert(!contains_at(line@, key@, i as int)) by {
                if contains_at(line@, key@, i as int) {
                    let t = choose|t: int| 0 <= t < m && line@[i + t] != key@[t];
                    assert(line@.subrange(i as int, i + m)[t] == line@[i + t]);
                }
            }
        }
    }
    assert forall|j: int| !contains_at(line@, key@, j) by {
        if 0 <= j && j + m <= n {
            assert(j < n - m + 1);
        }
    }
    false
}

proof fn lemma_quote_positions(line: Seq<u8>)
    ensures
        forall|j: int|
            0 <= j < quote_positions(line).len() ==> 0 <= #[trigger] quote_positions(line)[j]
                < line.len(),
        forall|j: int, k: int|
            0 <= j < k < quote_positions(line).len() ==> #[trigger] quote_positions(line)[j]
                < #[trigger] quote_positions(line)[k],
    decreases line.len(),
{
    if line.len() > 0 {
        let prev = quote_positions(line.drop_last());
        lemma_quote_positions(line.drop_last());
        let q = quote_positions(line);
        if line.last() == quote() {
            assert(q == prev.push(line.len() - 1));
            assert forall|j: int, k: int| 0 <= j < k < q.len() implies #[trigger] q[j] < #[trigger] q[k] by {
                if k < prev.len() {
                    assert(q[j] == prev[j] && q[k] == prev[k]);
                } else {
                    assert(q[j] == prev[j]);
                }
            }
        } else {
            assert(q == prev);
        }
    }
}

fn quoted_value(line: &Vec<u8>) -> (res: Option<Vec<u8>>)
    ensures
        opt_view(res) == spec_quoted_value(line@),
{
    let mut q: Vec<usize> = Vec::new();
    for i in 0..line.len()
        invariant
            q@.map_values(|x: usize| x as int) == quote_positions(line@.take(i as int)),
    {
        assert(line@.take(i + 1).drop_last() =~= line@.take(i as int));
        assert(line@.take(i + 1).last() == line@[i as int]);
        let ghost before = q@;
        if line[i] == 0x22 {
            q.push(i);
            assert(q@.map_values(|x: usize| x as int) =~= before.map_values(|x: usize| x as int).push(
                i as int,
            ));
        }
    }
    assert(line@.take(line@.len() as int) =~= line@);
    proof {
        lemma_quote_positions(line@);
    }
    let ghost qs = quote_positions(line@);
    if q.len() < 4 {
        assert(qs.len() == q@.len());
        return None;
    }
    assert(qs[2] == q@[2] as int && qs[3] == q@[3] as int);
    let start = q[2] + 1;
    let end = q[3];
    let mut out: Vec<u8> = Vec::new();
    for i in start..end
        invariant
            start <= end < line@.len(),
            out@ == line@.subrange(start as int, i as int),
    {
        out.push(line[i]);
        assert(line@.subrange(start as int, i + 1) =~= line@.subrange(start as int, i as int).push(
            line@[i as int],
        ));
    }
    Some(out)
}

/// The platform UUID in the output of `ioreg -d2 -c IOPlatformExpertDevice`.
pub fn uuid_from_ioreg(stdout: &[u8]) -> (uuid: Option<Vec<u8>>)
    ensures
        opt_view(uuid) == spec_uuid_from_ioreg(stdout@),
{
    let text = utf8_lossy(stdout);
    let ls = lines(text.as_slice());
    let ghost lv = bytes_view(ls@);
    for i in 0..ls.len()
        invariant
            lv == bytes_view(ls@),
            lv == spec_lines(spec_utf8_lossy(stdout@)),
            first_key_line(lv, 0) == first_key_line(lv, i as int),
    {
        assert(lv[i as int] == ls@[i as int]@);
        if contains_key(&ls[i]) {
            return quoted_value(&ls[i]);
        }
    }
    None
}


/// The Unicode White_Space characters.
pub open spec fn is_white_space(c: char) -> bool {
    let u = c as u32;
    ||| 0x09 <= u <= 0x0D
    ||| u == 0x20
    ||| u == 0x85
    ||| u == 0xA0
    ||| u == 0x1680
    ||| 0x2000 <= u <= 0x200A
    ||| u == 0x2028
    ||| u == 0x2029
    ||| u == 0x202F
    ||| u == 0x205F
    ||| u == 0x3000
}

pub open spec fn trim_start(s: Seq<char>) -> Seq<char>
    decreases s.len(),
{
    if s.len() > 0 && is_white_space(s[0]) {
        trim_start(s.drop_first())
    } else {
        s
    }
}

pub open spec fn trim_end(s: Seq<char>) -> Seq<char>
    decreases s.len(),
{
    if s.len() > 0 && is_white_space(s.last()) {
        trim_end(s.drop_last())
    } else {
        s
    }
}

/// A string with its leading and trailing White_Space removed.
pub open spec fn spec_trim(s: Seq<char>) -> Seq<char> {
    trim_end(trim_start(s))
}

/// `str::trim`: the text without leading and trailing Unicode White_Space.
#[verifier::external_body]
fn trim_str(s: &str) -> (res: String)
    ensures
        res@ == spec_trim(s@),
{
    s.trim().to_string()
}

/// The platform UUID in the contents of `/etc/machine-id`: the text,
/// trimmed, as UTF-8 bytes.
pub fn uuid_from_machine_id(contents: &str) -> (uuid: Vec<u8>)
    ensures
        uuid@ == vstd::utf8::encode_utf8(spec_trim(contents@)),
{
    let t = trim_str(contents);
    let b = t.as_str().as_bytes();
    crate::text::copy_bytes(b)
}

/// Where the platform UUID is read from.
pub enum UuidSource {
    /// macOS: the standard output of `ioreg -d2 -c IOPlatformExpertDevice`,
    /// `None` when the command could not run or failed.
    Ioreg(Option<Vec<u8>>),
    /// Linux: the contents of `/etc/machine-id`, `None` when unreadable.
    MachineIdFile(Option<String>),
    /// Elsewhere there is none.
    Unsupported,
}

/// The platform UUID from its source.
pub fn platform_uuid(source: UuidSource) -> (uuid: Option<Vec<u8>>)
    ensures
        match source {
            UuidSource::Ioreg(Some(out)) => opt_view(uuid) == spec_uuid_from_ioreg(out@),
            UuidSource::MachineIdFile(Some(text)) => opt_view(uuid) == Some(
                vstd::utf8::encode_utf8(spec_trim(text@)),
            ),
            _ => uuid is None,
        },
{
    match source {
        UuidSource::Ioreg(Some(out)) => uuid_from_ioreg(out.as_slice()),
        UuidSource::MachineIdFile(Some(text)) => Some(uuid_from_machine_id(text.as_str())),
        _ => None,
    }
}

}
