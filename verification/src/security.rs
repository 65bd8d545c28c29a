//! Input validation and path sanitization shared by the whole pipeline.
//!
//! Every byte of outside input passes through here before it can reach the
//! font loader: payload size, text content, font file size, and the path
//! checks that keep a job inside its base directory.

use vstd::prelude::*;
use vstd::string::StrSliceExecFns;
use vstd::string::StringExecFns;
use vstd::string::StringSliceAdditionalSpecFns;

use crate::errors::Error;

verus! {

/// Maximum allowed JSON input size in bytes (10 MiB).
pub const MAX_JSON_SIZE: usize = 10 * 1024 * 1024;

/// Maximum allowed number of jobs in a single spec.
pub const MAX_JOBS_PER_SPEC: usize = 1000;

/// Maximum allowed text length for shaping, in characters.
pub const MAX_TEXT_LENGTH: usize = 10000;

/// Maximum allowed font file size in bytes (50 MiB).
pub const MAX_FONT_SIZE: usize = 50 * 1024 * 1024;

/// Maximum memory usage allowed in bytes (500 MiB).
pub const MAX_MEMORY_USAGE: usize = 500 * 1024 * 1024;

/// Byte length of a string slice as the executable `len` reports it.
pub open spec fn str_byte_len(s: &str) -> usize {
    s.spec_bytes().len() as usize
}

/// A character that must be rejected in shaping text: a control character
/// that is not itself whitespace (tab, line feed, vertical tab, form feed,
/// carriage return, next line).
pub open spec fn is_forbidden_control(c: char) -> bool {
    &&& (c as u32) < 0x20 || (0x7F <= (c as u32) && (c as u32) <= 0x9F)
    &&& (c as u32) != 0x09
    &&& (c as u32) != 0x0A
    &&& (c as u32) != 0x0B
    &&& (c as u32) != 0x0C
    &&& (c as u32) != 0x0D
    &&& (c as u32) != 0x85
}

/// Text is acceptable for shaping when it fits the character budget and
/// holds no forbidden control character.
pub open spec fn text_input_ok(s: Seq<char>) -> bool {
    &&& s.len() <= MAX_TEXT_LENGTH
    &&& forall|i: int| 0 <= i < s.len() ==> !is_forbidden_control(s[i])
}

/// Validate JSON input size: accepted exactly when the payload is within the
/// 10 MiB budget.
pub fn validate_json_size(json: &str) -> (r: Result<(), Error>)
    ensures
        r.is_ok() <==> str_byte_len(json) <= MAX_JSON_SIZE,
        r.is_err() ==> r->Err_0 is InvalidJobSpec,
{
    if json.len() > MAX_JSON_SIZE {
        Err(Error::InvalidJobSpec { reason: String::from_str("JSON input too large") })
    } else {
        Ok(())
    }
}

/// Validate text input for shaping: accepted exactly when the text fits the
/// length budget and holds no control character besides whitespace.
pub fn validate_text_input(text: &str) -> (r: Result<(), Error>)
    ensures
        r.is_ok() <==> text_input_ok(text@),
        r.is_err() ==> r->Err_0 is InvalidJobSpec,
{
    let n = text.unicode_len();
    if n > MAX_TEXT_LENGTH {
        return Err(Error::InvalidJobSpec { reason: String::from_str("Text too long") });
    }
    let mut i: usize = 0;
    while i < n
        invariant
            i <= n,
            n == text@.len(),
            forall|j: int| 0 <= j < i ==> !is_forbidden_control(text@[j]),
        decreases n - i,
    {
        let c = text.get_char(i);
        let u = c as u32;
        if (u < 0x20 || (0x7F <= u && u <= 0x9F)) && u != 0x09 && u != 0x0A && u != 0x0B && u
            != 0x0C && u != 0x0D && u != 0x85 {
            return Err(
                Error::InvalidJobSpec {
                    reason: String::from_str("Text contains invalid control characters"),
                },
            );
        }
        i = i + 1;
    }
    Ok(())
}

/// Validate font file size: accepted exactly when the file is within the
/// 50 MiB cap.
pub fn validate_font_size(size: usize) -> (r: Result<(), Error>)
    ensures
        r.is_ok() <==> size <= MAX_FONT_SIZE,
        r.is_err() ==> r->Err_0 is InvalidFont,
{
    if size > MAX_FONT_SIZE {
        Err(
            Error::InvalidFont {
                path: String::new(),
                reason: String::from_str("Font file too large"),
            },
        )
    } else {
        Ok(())
    }
}

/// A path carries a traversal marker when it holds two adjacent dots or a
/// tilde anywhere.
pub open spec fn has_traversal_marker(s: Seq<char>) -> bool {
    ||| exists|i: int| 0 <= i && i + 1 < s.len() && (#[trigger] s[i]) == '.' && s[i + 1] == '.'
    ||| exists|i: int| 0 <= i < s.len() && (#[trigger] s[i]) == '~'
}

/// A canonical path lies within a canonical base when the base is a prefix
/// aligned on a path separator: the paths are equal, the base already ends
/// in the separator, or the separator follows the prefix.
pub open spec fn within_base(path: Seq<char>, base: Seq<char>) -> bool {
    &&& base.len() <= path.len()
    &&& path.subrange(0, base.len() as int) == base
    &&& (path.len() == base.len() || path[base.len() as int] == '/' || (base.len() > 0 && base[
    base.len() - 1] == '/'))
}

/// Scan a path for traversal markers. Returns true exactly when the path
/// holds `..` or `~`.
pub fn path_has_traversal(p: &str) -> (r: bool)
    ensures
        r == has_traversal_marker(p@),
{
    let n = p.unicode_len();
    let mut i: usize = 0;
    while i < n
        invariant
            i <= n,
            n == p@.len(),
            forall|j: int| 0 <= j < i ==> (#[trigger] p@[j]) != '~',
            forall|j: int| 0 <= j < i && j + 1 < n ==> !((#[trigger] p@[j]) == '.' && p@[j + 1]
                == '.'),
        decreases n - i,
    {
        let c = p.get_char(i);
        if c == '~' {
            return true;
        }
        if c == '.' && i + 1 < n {
            let c2 = p.get_char(i + 1);
            if c2 == '.' {
                return true;
            }
        }
        i = i + 1;
    }
    false
}

/// Reject a path that carries a traversal marker. Accepted exactly when the
/// path is free of `..` and `~`.
pub fn check_path_characters(p: &str) -> (r: Result<(), Error>)
    ensures
        r.is_ok() <==> !has_traversal_marker(p@),
        r.is_err() ==> r->Err_0 is PathViolation,
{
    if path_has_traversal(p) {
        Err(Error::PathViolation { reason: String::from_str("Path contains .. or ~") })
    } else {
        Ok(())
    }
}

/// Check that a canonicalized path lies within a canonicalized base
/// directory. Accepted exactly when the base is a component-aligned prefix.
pub fn check_canonical_within_base(path: &str, base: &str) -> (r: Result<(), Error>)
    ensures
        r.is_ok() <==> within_base(path@, base@),
        r.is_err() ==> r->Err_0 is PathViolation,
{
    let np = path.unicode_len();
    let nb = base.unicode_len();
    if nb > np {
        assert(!within_base(path@, base@));
        return Err(Error::PathViolation { reason: String::from_str("Path is outside allowed directory") });
    }
    let mut i: usize = 0;
    while i < nb
        invariant
            i <= nb <= np,
            np == path@.len(),
            nb == base@.len(),
            forall|j: int| 0 <= j < i ==> path@[j] == base@[j],
        decreases nb - i,
    {
        let cp = path.get_char(i);
        let cb = base.get_char(i);
        if cp != cb {
            assert(path@.subrange(0, base@.len() as int) != base@) by {
                assert(path@.subrange(0, base@.len() as int)[i as int] != base@[i as int]);
            }
            return Err(
                Error::PathViolation { reason: String::from_str("Path is outside allowed directory") },
            );
        }
        i = i + 1;
    }
    if np > nb {
        let sep = path.get_char(nb);
        let base_ends_with_sep = nb > 0 && base.get_char(nb - 1) == '/';
        if sep != '/' && !base_ends_with_sep {
            proof {
                assert(path@.subrange(0, base@.len() as int) =~= base@);
            }
            return Err(
                Error::PathViolation { reason: String::from_str("Path is outside allowed directory") },
            );
        }
    }
    assert(path@.subrange(0, base@.len() as int) =~= base@);
    Ok(())
}

/// Path safety, stated once for the whole sanitization layer: a path holding
/// `..` never passes the character check, and a canonical path accepted by
/// the base check is under the canonical base (the base is a prefix aligned
/// on a path separator).
pub proof fn lemma_path_safety(p: Seq<char>, canon: Seq<char>, base: Seq<char>)
    ensures
        (exists|i: int| 0 <= i && i + 1 < p.len() && (#[trigger] p[i]) == '.' && p[i + 1] == '.')
            ==> has_traversal_marker(p),
        within_base(canon, base) ==> canon.len() >= base.len() && canon.subrange(
            0,
            base.len() as int,
        ) == base,
{
}

/// Memory usage tracker probed between pipeline stages.
pub struct MemoryMonitor {
    /// Usage reading taken at construction.
    pub initial_usage: usize,
    /// Allowed growth in bytes.
    pub max_allowed: usize,
}

impl MemoryMonitor {
    /// Usage reading behind the monitor. This build has no platform memory
    /// source wired in and reports zero.
    pub fn current_usage() -> (r: usize)
        ensures
            r == 0,
    {
        0
    }

    /// Create a new memory monitor with the given allowance in bytes.
    pub fn new(max_allowed: usize) -> (m: MemoryMonitor)
        ensures
            m.max_allowed == max_allowed,
    {
        MemoryMonitor { initial_usage: Self::current_usage(), max_allowed }
    }

    /// Check that memory growth since construction stays within the
    /// allowance. With a zero usage source the check always passes.
    pub fn check_usage(&self) -> (r: Result<(), Error>)
        ensures
            r.is_ok(),
    {
        let current = Self::current_usage();
        let delta = if current > self.initial_usage {
            current - self.initial_usage
        } else {
            0
        };
        if delta > self.max_allowed {
            Err(Error::Internal { reason: String::from_str("Memory usage exceeded") })
        } else {
            Ok(())
        }
    }
}

/// Relies on std::time::SystemTime::now for a wall-clock reading, reduced to
/// whole milliseconds since the epoch. Nothing is promised of the value: the
/// clock may move arbitrarily between calls.
#[verifier::external_body]
fn now_millis() -> u64 {
    match std::time::SystemTime::now().duration_since(std::time::UNIX_EPOCH) {
        Ok(d) => d.as_millis() as u64,
        Err(_) => 0,
    }
}

/// Whether a deadline has tripped: true exactly when the clock has moved
/// past the start by more than the timeout.
pub fn deadline_exceeded(start_ms: u64, now_ms: u64, timeout_ms: u64) -> (r: bool)
    ensures
        r == (now_ms > start_ms && now_ms - start_ms > timeout_ms),
{
    now_ms > start_ms && now_ms - start_ms > timeout_ms
}

/// Wall-clock guard probed at pipeline checkpoints.
pub struct TimeoutGuard {
    /// Clock reading taken when the guard was created.
    pub start_ms: u64,
    /// Budget in milliseconds; the guard trips once the clock moves past
    /// the start by more than this.
    pub timeout_ms: u64,
}

impl TimeoutGuard {
    /// Start a guard with the given budget in milliseconds.
    pub fn new(timeout_ms: u64) -> (g: TimeoutGuard)
        ensures
            g.timeout_ms == timeout_ms,
    {
        TimeoutGuard { start_ms: now_millis(), timeout_ms }
    }

    /// Probe the guard at a named checkpoint. Whatever the clock returned,
    /// the only failure this can produce is the timeout kind carrying the
    /// checkpoint's name.
    pub fn check(&self, stage: &str) -> (r: Result<(), Error>)
        ensures
            r.is_err() ==> (r->Err_0 matches Error::Timeout { stage: s } && s@ == stage@),
    {
        let now = now_millis();
        if deadline_exceeded(self.start_ms, now, self.timeout_ms) {
            Err(Error::Timeout { stage: String::from_str(stage) })
        } else {
            Ok(())
        }
    }

    /// Milliseconds elapsed since the guard was created, as far as the clock
    /// shows; never negative.
    pub fn elapsed(&self) -> u64 {
        let now = now_millis();
        if now > self.start_ms {
            now - self.start_ms
        } else {
            0
        }
    }
}

} // verus!
