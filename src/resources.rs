//! Start-up decisions: a worker's cpu capacity, the checks on which workers
//! to launch, and the back-off while waiting for launched processes.

use vstd::prelude::*;

verus! {

/// Relies on `num_cpus::get`, the number of logical cpus available to this
/// process, which its documentation promises is at least one.
pub assume_specification[ num_cpus::get ]() -> (r: usize)
    ensures
        r >= 1,
;

#[derive(PartialEq, Eq, Structural, Clone, Copy, Debug)]
pub enum CpuError {
    /// An explicit count of zero.
    NotPositive,
    /// Subtracting `subtracted` from the `detected` cpus leaves none.
    NoneLeft { detected: u64, subtracted: u64 },
    /// The count does not fit in `u32`.
    TooMany,
}

/// The capacity a worker gets: an explicit positive count as given; a
/// negative one subtracted from the detected count; none, the detected
/// count. Zero or less is refused.
pub open spec fn cpus_spec(requested: Option<i32>, detected: int) -> Result<u32, CpuError> {
    match requested {
        Some(v) => if v > 0 {
            Ok(v as u32)
        } else if v == 0 {
            Err(CpuError::NotPositive)
        } else if detected <= -v {
            Err(CpuError::NoneLeft { detected: detected as u64, subtracted: (-v) as u64 })
        } else if detected + v > u32::MAX {
            Err(CpuError::TooMany)
        } else {
            Ok((detected + v) as u32)
        },
        None => if detected <= 0 {
            Err(CpuError::NoneLeft { detected: detected as u64, subtracted: 0 })
        } else if detected > u32::MAX {
            Err(CpuError::TooMany)
        } else {
            Ok(detected as u32)
        },
    }
}

/// Capacity from a requested count and the detected number of cpus.
pub fn cpus_from(requested: Option<i32>, detected: usize) -> (r: Result<u32, CpuError>)
    ensures
        r == cpus_spec(requested, detected as int),
        r matches Ok(n) ==> n > 0,
{
    match requested {
        Some(v) => {
            if v > 0 {
                Ok(v as u32)
            } else if v == 0 {
                Err(CpuError::NotPositive)
            } else {
                let sub: u64 = (-(v as i64)) as u64;
                if (detected as u64) <= sub {
                    Err(CpuError::NoneLeft { detected: detected as u64, subtracted: sub })
                } else if (detected as u64) - sub > 0xffff_ffff {
                    Err(CpuError::TooMany)
                } else {
                    Ok(((detected as u64) - sub) as u32)
                }
            }
        },
        None => {
            if detected == 0 {
                Err(CpuError::NoneLeft { detected: 0, subtracted: 0 })
            } else if detected as u64 > 0xffff_ffff {
                Err(CpuError::TooMany)
            } else {
                Ok(detected as u32)
            }
        },
    }
}

/// Capacity of this machine's worker: cpus are detected only when the
/// request needs the detected count.
pub fn worker_cpus(requested: Option<i32>) -> (r: Result<u32, CpuError>)
    ensures
        requested is Some && requested->Some_0 > 0 ==> r == Ok::<u32, CpuError>(
            requested->Some_0 as u32,
        ),
        requested == Some(0i32) ==> r == Err::<u32, CpuError>(CpuError::NotPositive),
        (requested is None || requested->Some_0 < 0) ==> exists|d: int|
            d >= 1 && r == cpus_spec(requested, d),
        r matches Ok(n) ==> n > 0,
{
    match requested {
        Some(v) => {
            if v >= 0 {
                return cpus_from(requested, 0);
            }
        },
        None => {},
    }
    let detected = num_cpus::get();
    cpus_from(requested, detected)
}

#[derive(PartialEq, Eq, Structural, Clone, Copy, Debug)]
pub enum LaunchError {
    /// Local workers and a host file were both given.
    LocalAndRemote,
    /// Neither local workers nor worker hosts were given.
    NoWorkers,
}

/// Local workers and a worker host file exclude each other.
pub fn check_worker_sources(local_workers: usize, has_host_file: bool) -> (r: Result<(), LaunchError>)
    ensures
        r is Err <==> local_workers > 0 && has_host_file,
        r is Err ==> r == Err::<(), LaunchError>(LaunchError::LocalAndRemote),
{
    if local_workers > 0 && has_host_file {
        Err(LaunchError::LocalAndRemote)
    } else {
        Ok(())
    }
}

/// At least one worker, local or remote, must be launched.
pub fn check_workers_given(local_workers: usize, remote_hosts: usize) -> (r: Result<(), LaunchError>)
    ensures
        r is Err <==> local_workers == 0 && remote_hosts == 0,
        r is Err ==> r == Err::<(), LaunchError>(LaunchError::NoWorkers),
{
    if local_workers == 0 && remote_hosts == 0 {
        Err(LaunchError::NoWorkers)
    } else {
        Ok(())
    }
}

pub const POLL_STEP_MS: u64 = 50;

pub const POLL_LIMIT_MS: u64 = 1500;

/// The next pause between readiness checks: it grows by a step while below
/// the limit.
pub fn next_poll_timeout(timeout_ms: u64) -> (r: u64)
    ensures
        timeout_ms < POLL_LIMIT_MS ==> r == timeout_ms + POLL_STEP_MS,
        timeout_ms >= POLL_LIMIT_MS ==> r == timeout_ms,
{
    if timeout_ms < POLL_LIMIT_MS {
        timeout_ms + POLL_STEP_MS
    } else {
        timeout_ms
    }
}

/// Characters of Unicode's White_Space property.
pub open spec fn white_space(c: char) -> bool {
    let n = c as u32;
    ||| 0x9 <= n <= 0xd
    ||| n == 0x20 || n == 0x85 || n == 0xa0 || n == 0x1680
    ||| 0x2000 <= n <= 0x200a
    ||| n == 0x2028 || n == 0x2029 || n == 0x202f || n == 0x205f || n == 0x3000
}

/// `s[a..b]` is `s` without its leading and trailing white space.
pub open spec fn trim_bounds(s: Seq<char>, a: int, b: int) -> bool {
    &&& 0 <= a <= b <= s.len()
    &&& forall|i: int| 0 <= i < a ==> white_space(#[trigger] s[i])
    &&& forall|i: int| b <= i < s.len() ==> white_space(#[trigger] s[i])
    &&& a < b ==> !white_space(s[a]) && !white_space(s[b - 1])
}

/// `t` is `s` without its leading and trailing white space.
pub open spec fn trimmed(s: Seq<char>, t: Seq<char>) -> bool {
    exists|a: int, b: int| trim_bounds(s, a, b) && t == s.subrange(a, b)
}

/// Relies on `str::trim`, which removes leading and trailing characters of
/// Unicode's White_Space property and keeps the rest.
#[verifier::external_body]
fn trim_str(s: &str) -> (r: String)
    ensures
        trimmed(s@, r@),
{
    s.trim().to_string()
}

/// The host named by one line of a worker host file: the line without
/// surrounding white space; `None` for a blank line or a `#` comment.
pub fn host_entry(line: &str) -> (r: Option<String>)
    ensures
        exists|a: int, b: int|
            {
                &&& trim_bounds(line@, a, b)
                &&& if a == b || line@[a] == '#' {
                    r is None
                } else {
                    r is Some && r->Some_0@ == line@.subrange(a, b)
                }
            },
{
    let t = trim_str(line);
    let ghost (a, b) = choose|a: int, b: int| trim_bounds(line@, a, b) && t@ == line@.subrange(a, b);
    if t.as_str().unicode_len() == 0 || t.as_str().get_char(0) == '#' {
        proof {
            if a < b {
                assert(t@[0] == line@[a]);
            }
        }
        None
    } else {
        proof {
            assert(t@[0] == line@[a]);
        }
        Some(t)
    }
}

} // verus!
