//! Process-wide configuration and the backend's fixed paths.
//!
//! A `Config` is made once at start-up and only read afterwards; every
//! handler takes it as an argument.

use vstd::prelude::*;
use vstd::string::*;

verus! {

/// Backend path of the liveness probe.
pub const PATH_HEALTHZ: &'static str = "healthz";

/// Backend path of the object collection; an object lives under it.
pub const PATH_OBJECTS: &'static str = "objects";

/// Backend path that registers a user.
pub const PATH_SIGNUP: &'static str = "auth/signup";

/// Backend path that issues a credential.
pub const PATH_LOGIN: &'static str = "auth/login";

/// Where the backend is taken to be if nothing says otherwise.
pub const DEFAULT_BACKEND_BASE: &'static str = "http://127.0.0.1:8080";

/// The address on which the gateway listens if nothing says otherwise.
pub const DEFAULT_UI_HOST: &'static str = "127.0.0.1";

/// The port on which the gateway listens if nothing says otherwise.
pub const DEFAULT_UI_PORT: u16 = 8085;

/// The upload limit if nothing says otherwise: 50 MiB.
pub const DEFAULT_MAX_UPLOAD_BYTES: u64 = 52_428_800;

/// The time allowed for a backend call if nothing says otherwise.
pub const DEFAULT_UPSTREAM_TIMEOUT_SECS: u64 = 30;

/// The sign that a number's text may begin with.
pub const PLUS: u8 = 0x2b;

/// The settings of the gateway.
#[derive(Clone, Debug)]
pub struct Config {
    /// Address of the backend, with or without a trailing `/`.
    pub backend_base: String,
    /// Address on which the gateway listens.
    pub ui_host: String,
    /// Port on which the gateway listens.
    pub ui_port: u16,
    /// Largest upload that is passed on, in bytes.
    pub max_upload_bytes: u64,
    /// How long one backend call may take, in seconds.
    pub upstream_timeout_secs: u64,
}

/// `base` and `path` with exactly one `/` put between them where `base`
/// brings none.
pub open spec fn join_path(base: Seq<char>, path: Seq<char>) -> Seq<char> {
    if base.len() > 0 && base.last() == '/' {
        base + path
    } else {
        base.push('/') + path
    }
}

/// A decimal digit.
pub open spec fn is_digit(b: u8) -> bool {
    0x30 <= b <= 0x39
}

/// Decimal digits only.
pub open spec fn all_digits(s: Seq<u8>) -> bool {
    forall|i: int| 0 <= i < s.len() ==> is_digit(#[trigger] s[i])
}

/// The number that a run of decimal digits writes.
pub open spec fn digits_value(s: Seq<u8>) -> nat
    decreases s.len(),
{
    if s.len() == 0 {
        0
    } else {
        (digits_value(s.drop_last()) * 10 + (s.last() - 0x30)) as nat
    }
}

/// The digits of a number's text: the text itself, without one leading `+`.
pub open spec fn digits_of(s: Seq<u8>) -> Seq<u8> {
    if s.len() > 0 && s[0] == PLUS {
        s.skip(1)
    } else {
        s
    }
}

/// The number that `s` writes, if it writes one that is at most `max`: an
/// optional `+`, then one decimal digit or more, and nothing else.
pub open spec fn parse_number(s: Seq<u8>, max: nat) -> Option<nat> {
    let digits = digits_of(s);
    if digits.len() > 0 && all_digits(digits) && digits_value(digits) <= max {
        Some(digits_value(digits))
    } else {
        None
    }
}

/// A longer run of digits writes no smaller number.
pub proof fn lemma_digits_value_grows(s: Seq<u8>, i: int)
    requires
        0 <= i <= s.len(),
        all_digits(s),
    ensures
        digits_value(s.take(i)) <= digits_value(s),
    decreases s.len() - i,
{
    if i == s.len() {
        assert(s.take(i) =~= s);
    } else {
        lemma_digits_value_grows(s, i + 1);
        let longer = s.take(i + 1);
        assert(longer.drop_last() =~= s.take(i));
    }
}

/// Reads an unsigned decimal number of at most `max`.
pub fn parse_decimal(s: &str, max: u64) -> (r: Option<u64>)
    ensures
        match r {
            Some(v) => parse_number(s.spec_bytes(), max as nat) == Some(v as nat),
            None => parse_number(s.spec_bytes(), max as nat) is None,
        },
{
    let bytes = s.as_bytes();
    let n = bytes.len();
    let start: usize = if n > 0 && bytes[0] == PLUS {
        1
    } else {
        0
    };
    let ghost digits = digits_of(bytes@);
    if start == n {
        return None;
    }
    let mut i: usize = start;
    let mut value: u64 = 0;
    while i < n
        invariant
            start <= i <= n,
            n == bytes@.len(),
            bytes@ == s.spec_bytes(),
            digits == bytes@.skip(start as int),
            digits == digits_of(s.spec_bytes()),
            all_digits(digits.take(i - start)),
            value == digits_value(digits.take(i - start)),
            value <= max,
        decreases n - i,
    {
        let b = bytes[i];
        proof {
            assert(digits[i - start] == b);
            assert(digits.take(i - start + 1).drop_last() =~= digits.take(i - start));
        }
        if !(0x30 <= b && b <= 0x39) {
            return None;
        }
        let d: u64 = (b - 0x30) as u64;
        if d > max || value > (max - d) / 10 {
            proof {
                if all_digits(digits) {
                    lemma_digits_value_grows(digits, i - start + 1);
                }
            }
            return None;
        }
        value = value * 10 + d;
        proof {
            let longer = digits.take(i - start + 1);
            assert forall|j: int| 0 <= j < longer.len() implies is_digit(#[trigger] longer[j]) by {
                if j < i - start {
                    assert(digits.take(i - start)[j] == longer[j]);
                }
            }
        }
        i += 1;
    }
    proof {
        assert(digits.take(n - start) =~= digits);
    }
    Some(value)
}

/// The number that a setting gives: what its text writes if that is a number
/// of at most `max`, else `default`.
pub open spec fn number_or(setting: Option<String>, max: nat, default: nat) -> nat {
    match setting {
        Some(s) => match parse_number(vstd::utf8::encode_utf8(s@), max) {
            Some(v) => v,
            None => default,
        },
        None => default,
    }
}

/// Reads a setting that is a number.
fn number_setting(setting: &Option<String>, max: u64, default: u64) -> (v: u64)
    requires
        default <= max,
    ensures
        v as nat == number_or(*setting, max as nat, default as nat),
        v <= max,
{
    match setting {
        Some(s) => match parse_decimal(s.as_str(), max) {
            Some(v) => v,
            None => default,
        },
        None => default,
    }
}

impl Config {
    /// The configuration that the given settings describe. A setting that is
    /// missing takes its default, and so does a number that does not read as
    /// one within its range.
    pub fn from_values(
        backend_base: Option<String>,
        ui_host: Option<String>,
        ui_port: Option<String>,
        max_upload_bytes: Option<String>,
        upstream_timeout_secs: Option<String>,
    ) -> (cfg: Config)
        ensures
            cfg.backend_base@ == (match backend_base {
                Some(s) => s@,
                None => DEFAULT_BACKEND_BASE@,
            }),
            cfg.ui_host@ == (match ui_host {
                Some(s) => s@,
                None => DEFAULT_UI_HOST@,
            }),
            cfg.ui_port as nat == number_or(ui_port, u16::MAX as nat, DEFAULT_UI_PORT as nat),
            cfg.max_upload_bytes as nat == number_or(
                max_upload_bytes,
                u64::MAX as nat,
                DEFAULT_MAX_UPLOAD_BYTES as nat,
            ),
            cfg.upstream_timeout_secs as nat == number_or(
                upstream_timeout_secs,
                u64::MAX as nat,
                DEFAULT_UPSTREAM_TIMEOUT_SECS as nat,
            ),
    {
        let backend_base = match backend_base {
            Some(s) => s,
            None => String::from_str(DEFAULT_BACKEND_BASE),
        };
        let ui_host = match ui_host {
            Some(s) => s,
            None => String::from_str(DEFAULT_UI_HOST),
        };
        let ui_port = number_setting(&ui_port, u16::MAX as u64, DEFAULT_UI_PORT as u64) as u16;
        let max_upload_bytes = number_setting(
            &max_upload_bytes,
            u64::MAX,
            DEFAULT_MAX_UPLOAD_BYTES,
        );
        let upstream_timeout_secs = number_setting(
            &upstream_timeout_secs,
            u64::MAX,
            DEFAULT_UPSTREAM_TIMEOUT_SECS,
        );
        Config { backend_base, ui_host, ui_port, max_upload_bytes, upstream_timeout_secs }
    }

    /// The backend address of `path`.
    ///
    /// The base may end in `/` or not: either way exactly one `/` stands
    /// between it and `path`.
    pub fn join_backend(&self, path: &str) -> (url: String)
        ensures
            url@ == join_path(self.backend_base@, path@),
    {
        let base = self.backend_base.as_str();
        let n = base.unicode_len();
        let mut url = self.backend_base.clone();
        if !(n > 0 && base.get_char(n - 1) == '/') {
            url.append("/");
            proof {
                reveal_strlit("/");
            }
        }
        url.append(path);
        url
    }
}

} // verus!
