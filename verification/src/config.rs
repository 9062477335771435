//! The history of saved configurations.

use vstd::prelude::*;
use vstd::string::{StringExecFns, StringSliceAdditionalSpecFns};
use crate::numbers::{parse_i64, parsed_i64};
use crate::recency::{is_newest_first, newest_first};
use crate::session::{ends_at, ends_with, json_suffix};

verus! {

/// The number of backups that are kept when older ones are cleaned up.
pub const KEPT_BACKUPS: usize = 10;

/// One saved version of the configuration.
#[derive(Clone, Debug)]
pub struct ConfigHistoryVersion {
    /// The name of the backup file.
    pub filename: String,
    /// When it was saved, in seconds since the epoch; 0 where the name gives
    /// no time.
    pub timestamp: i64,
    /// Its size in bytes.
    pub size: u64,
}

/// The bytes of `config_`.
pub open spec fn backup_prefix() -> Seq<u8> {
    seq![99u8, 111u8, 110u8, 102u8, 105u8, 103u8, 95u8]
}

/// Whether a file of this name is a backup: it has the extension `json`,
/// that is, its name ends with `.json` and does not begin there.
pub open spec fn names_backup(file_name: Seq<u8>) -> bool {
    file_name.len() > 5 && ends_with(file_name, json_suffix())
}

/// The time that the name of a backup gives: the number between `config_` and
/// `.json`, or 0 where the name is not of that form.
pub open spec fn timestamp_in(file_name: Seq<u8>) -> i64 {
    if file_name.len() >= 12 && file_name.take(7) == backup_prefix() && ends_with(
        file_name,
        json_suffix(),
    ) {
        match parsed_i64(file_name.subrange(7, file_name.len() - 5)) {
            Some(t) => t,
            None => 0,
        }
    } else {
        0
    }
}

/// Whether a file of this name is a backup.
pub fn is_backup_file(file_name: &str) -> (yes: bool)
    ensures
        yes == names_backup(file_name.spec_bytes()),
{
    let bytes = file_name.as_bytes();
    let json: Vec<u8> = vec![46u8, 106u8, 115u8, 111u8, 110u8];
    proof {
        assert(bytes@.take(bytes@.len() as int) =~= bytes@);
        assert(json@ =~= json_suffix());
    }
    bytes.len() > 5 && ends_at(bytes, bytes.len(), json.as_slice())
}

/// The time that the name of a backup gives.
pub fn timestamp_of(file_name: &str) -> (t: i64)
    ensures
        t == timestamp_in(file_name.spec_bytes()),
{
    let bytes = file_name.as_bytes();
    let n: usize = bytes.len();
    let json: Vec<u8> = vec![46u8, 106u8, 115u8, 111u8, 110u8];
    proof {
        assert(bytes@.take(n as int) =~= bytes@);
        assert(json@ =~= json_suffix());
    }
    if n < 12 || !ends_at(bytes, n, json.as_slice()) {
        return 0;
    }
    if !(bytes[0] == 99 && bytes[1] == 111 && bytes[2] == 110 && bytes[3] == 102 && bytes[4] == 105
        && bytes[5] == 103 && bytes[6] == 95) {
        proof {
            assert(bytes@.take(7) != backup_prefix()) by {
                if bytes@.take(7) == backup_prefix() {
                    assert(bytes@.take(7)[0] == 99u8);
                    assert(bytes@.take(7)[1] == 111u8);
                    assert(bytes@.take(7)[2] == 110u8);
                    assert(bytes@.take(7)[3] == 102u8);
                    assert(bytes@.take(7)[4] == 105u8);
                    assert(bytes@.take(7)[5] == 103u8);
                    assert(bytes@.take(7)[6] == 95u8);
                }
            }
        }
        return 0;
    }
    proof {
        assert(bytes@.take(7) =~= backup_prefix());
    }
    let middle = vstd::slice::slice_subrange(bytes, 7, n - 5);
    match parse_i64(middle) {
        Some(t) => t,
        None => 0,
    }
}

/// The version that a backup file of this name and size stands for.
pub fn version_of(file_name: String, size: u64) -> (v: ConfigHistoryVersion)
    ensures
        v.filename == file_name,
        v.timestamp == timestamp_in(vstd::utf8::encode_utf8(file_name@)),
        v.size == size,
{
    let timestamp = timestamp_of(file_name.as_str());
    ConfigHistoryVersion { filename: file_name, timestamp, size }
}

/// The character of a decimal digit.
pub open spec fn digit_char(d: nat) -> char {
    if d == 0 {
        '0'
    } else if d == 1 {
        '1'
    } else if d == 2 {
        '2'
    } else if d == 3 {
        '3'
    } else if d == 4 {
        '4'
    } else if d == 5 {
        '5'
    } else if d == 6 {
        '6'
    } else if d == 7 {
        '7'
    } else if d == 8 {
        '8'
    } else {
        '9'
    }
}

/// A number in decimal digits, without leading zeros.
pub open spec fn decimal(n: nat) -> Seq<char>
    decreases n,
{
    if n < 10 {
        seq![digit_char(n)]
    } else {
        decimal(n / 10).push(digit_char(n % 10))
    }
}

/// A number in decimal digits, with a minus sign in front where it is below
/// zero.
pub open spec fn signed_decimal(t: int) -> Seq<char> {
    if t < 0 {
        seq!['-'] + decimal((-t) as nat)
    } else {
        decimal(t as nat)
    }
}

/// The name of the backup that is saved at the time `timestamp`.
pub open spec fn backup_name_of(timestamp: i64) -> Seq<char> {
    "config_"@ + signed_decimal(timestamp as int) + ".json"@
}

/// The text of a decimal digit.
fn digit_text(d: u64) -> (text: &'static str)
    requires
        d < 10,
    ensures
        text@ == seq![digit_char(d as nat)],
{
    proof {
        reveal_strlit("0");
        reveal_strlit("1");
        reveal_strlit("2");
        reveal_strlit("3");
        reveal_strlit("4");
        reveal_strlit("5");
        reveal_strlit("6");
        reveal_strlit("7");
        reveal_strlit("8");
        reveal_strlit("9");
    }
    let text = if d == 0 {
        "0"
    } else if d == 1 {
        "1"
    } else if d == 2 {
        "2"
    } else if d == 3 {
        "3"
    } else if d == 4 {
        "4"
    } else if d == 5 {
        "5"
    } else if d == 6 {
        "6"
    } else if d == 7 {
        "7"
    } else if d == 8 {
        "8"
    } else {
        "9"
    };
    assert(text@ =~= seq![digit_char(d as nat)]);
    text
}

/// Writes `n` in decimal digits behind `out`.
fn append_decimal(out: &mut String, n: u64)
    ensures
        final(out)@ == old(out)@ + decimal(n as nat),
    decreases n,
{
    if n >= 10 {
        append_decimal(out, n / 10);
    }
    out.append(digit_text(n % 10));
    proof {
        assert(final(out)@ =~= old(out)@ + decimal(n as nat));
    }
}

/// The name of the backup that is saved at the time `timestamp`.
pub fn backup_name(timestamp: i64) -> (name: String)
    ensures
        name@ == backup_name_of(timestamp),
{
    let mut name = String::from_str("config_");
    let magnitude: u64 = if timestamp >= 0 {
        timestamp as u64
    } else if timestamp == i64::MIN {
        0x8000_0000_0000_0000u64
    } else {
        (0 - timestamp) as u64
    };
    if timestamp < 0 {
        proof {
            reveal_strlit("-");
        }
        name.append("-");
        assert(name@ =~= "config_"@ + seq!['-']);
    }
    append_decimal(&mut name, magnitude);
    name.append(".json");
    proof {
        assert(name@ =~= backup_name_of(timestamp));
    }
    name
}

/// The times of the versions, in their order.
pub open spec fn times_of(versions: Seq<ConfigHistoryVersion>) -> Seq<i128> {
    Seq::new(versions.len(), |i: int| versions[i].timestamp as i128)
}

/// Whether `sorted` holds the versions in the order `order`.
pub open spec fn is_rearranged(
    versions: Seq<ConfigHistoryVersion>,
    order: Seq<usize>,
    sorted: Seq<ConfigHistoryVersion>,
) -> bool {
    &&& sorted.len() == versions.len()
    &&& order.len() == versions.len()
    &&& forall|k: int| 0 <= k < sorted.len() ==> sorted[k] == versions[order[k] as int]
}

/// Puts the versions in order, newest first. Versions of the same time keep
/// the order in which they came.
pub fn sort_newest_first(versions: Vec<ConfigHistoryVersion>) -> (sorted: Vec<ConfigHistoryVersion>)
    ensures
        exists|order: Seq<usize>|
            is_newest_first(times_of(versions@), order) && is_rearranged(
                versions@,
                order,
                sorted@,
            ),
{
    let ghost all = versions@;
    let mut rest = versions;
    let n: usize = rest.len();
    let mut times: Vec<i128> = Vec::new();
    let mut i: usize = 0;
    while i < n
        invariant
            n == rest@.len(),
            rest@ == all,
            i <= n,
            times@ =~= times_of(all).take(i as int),
        decreases n - i,
    {
        times.push(rest[i].timestamp as i128);
        i = i + 1;
    }
    proof {
        assert(times@ =~= times_of(all));
    }
    let order = newest_first(&times);
    let mut sorted: Vec<ConfigHistoryVersion> = Vec::new();
    let mut k: usize = 0;
    while k < n
        invariant
            n == rest@.len(),
            n == all.len(),
            k <= n,
            is_newest_first(times_of(all), order@),
            sorted@.len() == k,
            forall|j: int| 0 <= j < k ==> sorted@[j] == all[order@[j] as int],
            forall|j: int| k <= j < n ==> rest@[order@[j] as int] == all[order@[j] as int],
        decreases n - k,
    {
        let place: usize = order[k];
        let mut item = ConfigHistoryVersion { filename: String::new(), timestamp: 0, size: 0 };
        std::mem::swap(&mut item, &mut rest[place]);
        sorted.push(item);
        k = k + 1;
    }
    proof {
        assert(is_rearranged(all, order@, sorted@));
    }
    sorted
}

/// What a configuration holds under `providers`.
#[derive(Clone, Copy, Debug, PartialEq, Eq, Structural)]
pub enum Providers {
    /// No such entry.
    Missing,
    /// An entry that is no object.
    NotAnObject,
    /// An object with this many providers.
    Object(usize),
}

/// What a configuration holds under `agents`, `defaults`, `model`.
#[derive(Clone, Copy, Debug, PartialEq, Eq, Structural)]
pub enum DefaultModel {
    /// No such entry.
    Missing,
    /// An entry that is no text.
    NotText,
    /// A text of this many bytes.
    Text(usize),
}

/// What a configuration holds under `channels`.
#[derive(Clone, Copy, Debug, PartialEq, Eq, Structural)]
pub enum Channels {
    /// No such entry, or one that is no object.
    NotAnObject,
    /// An object of which this many channels are enabled.
    Object(usize),
}

/// What the validation reads of a configuration.
#[derive(Clone, Copy, Debug, PartialEq, Eq, Structural)]
pub struct ConfigFacts {
    pub providers: Providers,
    pub default_model: DefaultModel,
    pub channels: Channels,
}

/// What can be wrong with a configuration.
#[derive(Clone, Copy, Debug, PartialEq, Eq, Structural)]
pub enum ConfigIssue {
    /// Error: there is no `providers` entry.
    ProvidersMissing,
    /// Error: the default model is empty or no text.
    DefaultModelEmpty,
    /// Warning: no provider is configured.
    NoProvider,
    /// Warning: no channel is enabled.
    NoChannelEnabled,
}

/// The outcome of a validation.
#[derive(Debug)]
pub struct Validation {
    /// Whether there is no error.
    pub valid: bool,
    /// The errors, in the order of the checks.
    pub errors: Vec<ConfigIssue>,
    /// The warnings, in the order of the checks.
    pub warnings: Vec<ConfigIssue>,
}

/// The errors of a configuration, in the order of the checks.
pub open spec fn errors_of(facts: ConfigFacts) -> Seq<ConfigIssue> {
    let first = if facts.providers == Providers::Missing {
        seq![ConfigIssue::ProvidersMissing]
    } else {
        Seq::empty()
    };
    let second = if facts.default_model == DefaultModel::NotText || facts.default_model
        == DefaultModel::Text(0) {
        seq![ConfigIssue::DefaultModelEmpty]
    } else {
        Seq::empty()
    };
    first + second
}

/// The warnings of a configuration, in the order of the checks.
pub open spec fn warnings_of(facts: ConfigFacts) -> Seq<ConfigIssue> {
    let first = if facts.providers == Providers::Object(0) {
        seq![ConfigIssue::NoProvider]
    } else {
        Seq::empty()
    };
    let second = if facts.channels == Channels::Object(0) {
        seq![ConfigIssue::NoChannelEnabled]
    } else {
        Seq::empty()
    };
    first + second
}

/// Validates a configuration: it is valid where it has no error; warnings do
/// not make it invalid.
pub fn validate_config(facts: ConfigFacts) -> (v: Validation)
    ensures
        v.errors@ == errors_of(facts),
        v.warnings@ == warnings_of(facts),
        v.valid == (errors_of(facts).len() == 0),
{
    let mut errors: Vec<ConfigIssue> = Vec::new();
    let mut warnings: Vec<ConfigIssue> = Vec::new();
    match facts.providers {
        Providers::Missing => errors.push(ConfigIssue::ProvidersMissing),
        Providers::Object(n) => {
            if n == 0 {
                warnings.push(ConfigIssue::NoProvider);
            }
        },
        Providers::NotAnObject => {},
    }
    match facts.default_model {
        DefaultModel::NotText => errors.push(ConfigIssue::DefaultModelEmpty),
        DefaultModel::Text(n) => {
            if n == 0 {
                errors.push(ConfigIssue::DefaultModelEmpty);
            }
        },
        DefaultModel::Missing => {},
    }
    match facts.channels {
        Channels::Object(n) => {
            if n == 0 {
                warnings.push(ConfigIssue::NoChannelEnabled);
            }
        },
        Channels::NotAnObject => {},
    }
    proof {
        assert(errors@ =~= errors_of(facts));
        assert(warnings@ =~= warnings_of(facts));
    }
    let valid = errors.len() == 0;
    Validation { valid, errors, warnings }
}

/// Counts the channels that are enabled.
pub fn count_enabled(enabled: &Vec<bool>) -> (n: usize)
    ensures
        n as nat == enabled@.filter(|b: bool| b).len(),
{
    let mut n: usize = 0;
    let mut i: usize = 0;
    proof {
        assert(enabled@.take(0) =~= Seq::<bool>::empty());
    }
    while i < enabled.len()
        invariant
            i <= enabled@.len(),
            n <= i,
            n as nat == enabled@.take(i as int).filter(|b: bool| b).len(),
        decreases enabled@.len() - i,
    {
        proof {
            let upto = enabled@.take(i + 1);
            assert(upto.drop_last() =~= enabled@.take(i as int));
            assert(upto.last() == enabled@[i as int]);
            reveal(Seq::filter);
        }
        if enabled[i] {
            n = n + 1;
        }
        i = i + 1;
    }
    proof {
        assert(enabled@.take(enabled@.len() as int) =~= enabled@);
    }
    n
}

} // verus!
