//! The settings of crash recovery and their validity.

use vstd::prelude::*;
use vstd::utf8::encode_utf8;

use crate::paths::{
    clone_paths, components, is_absolute, joined, law_join_components, lemma_no_separator,
    path_views, pieces, Component, NativePath,
};

verus! {

/// The settings of crash recovery.
#[derive(Debug)]
pub struct Config {
    pub enable: bool,
    pub keep_recovered: bool,
    pub directories: Vec<NativePath>,
    /// A filename suffix, not a path. ASCII letters, digits, '.', '_' and '-'.
    pub suffix: String,
    /// Maximum snapshot UTF-8 bytes; zero means unlimited.
    pub size_threshold: usize,
    /// Positive edit count between automatic snapshots.
    pub update_count: usize,
    /// Positive, representable maximum pending-change interval in seconds.
    pub update_time: u64,
}

/// What a configuration stands for.
#[verifier::ext_equal]
pub struct ConfigView {
    pub enable: bool,
    pub keep_recovered: bool,
    pub directories: Seq<Seq<u8>>,
    pub suffix: Seq<char>,
    pub size_threshold: usize,
    pub update_count: usize,
    pub update_time: u64,
}

impl View for Config {
    type V = ConfigView;

    open spec fn view(&self) -> ConfigView {
        ConfigView {
            enable: self.enable,
            keep_recovered: self.keep_recovered,
            directories: path_views(self.directories@),
            suffix: self.suffix@,
            size_threshold: self.size_threshold,
            update_count: self.update_count,
            update_time: self.update_time,
        }
    }
}

impl Clone for Config {
    fn clone(&self) -> (r: Config)
        ensures
            r@ == self@,
    {
        Config {
            enable: self.enable,
            keep_recovered: self.keep_recovered,
            directories: clone_paths(&self.directories),
            suffix: self.suffix.clone(),
            size_threshold: self.size_threshold,
            update_count: self.update_count,
            update_time: self.update_time,
        }
    }
}

/// Why a configuration is refused.
#[derive(Debug, Clone, Copy, PartialEq, Eq, Structural)]
pub enum ConfigError {
    UnsafeSuffix,
    UpdateCount,
    UpdateTime,
}

/// A character that a suffix may hold.
pub open spec fn safe_char(c: char) -> bool {
    ||| 'a' <= c <= 'z'
    ||| 'A' <= c <= 'Z'
    ||| '0' <= c <= '9'
    ||| c == '.'
    ||| c == '_'
    ||| c == '-'
}

/// A filename suffix that cannot name a directory: up to 64 safe characters, at least one, and
/// no '.' at the end.
pub open spec fn safe_suffix(suffix: Seq<char>) -> bool {
    &&& 0 < suffix.len() <= 64
    &&& suffix.last() != '.'
    &&& forall|i: int| 0 <= i < suffix.len() ==> safe_char(#[trigger] suffix[i])
}

pub fn valid_suffix(suffix: &str) -> (r: bool)
    ensures
        r == safe_suffix(suffix@),
{
    if !suffix.is_ascii() {
        proof {
            let i = choose|i: int|
                0 <= i < suffix@.len() && !('\0' <= #[trigger] suffix@[i] <= '\u{7f}');
            assert(!safe_char(suffix@[i]));
        }
        return false;
    }
    let bytes = suffix.as_bytes();
    proof {
        vstd::string::is_ascii_spec_bytes(suffix);
    }
    let count = bytes.len();
    if count == 0 || count > 64 || bytes[count - 1] == 46u8 {
        return false;
    }
    let mut i: usize = 0;
    while i < count
        invariant
            i <= count,
            count == bytes@.len(),
            suffix.is_ascii(),
            bytes@ == Seq::new(suffix@.len(), |i: int| suffix@.index(i) as u8),
            forall|k: int| 0 <= k < i ==> safe_char(#[trigger] suffix@[k]),
        decreases count - i,
    {
        let b = bytes[i];
        assert(b == suffix@[i as int] as u8 && suffix@[i as int] as nat <= 127);
        let safe = (b >= 97 && b <= 122) || (b >= 65 && b <= 90) || (b >= 48 && b <= 57) || b == 46
            || b == 95 || b == 45;
        if !safe {
            assert(!safe_char(suffix@[i as int]));
            return false;
        }
        i = i + 1;
    }
    true
}

/// An instant of the monotonic clock, carried as it is.
#[verifier::external_type_specification]
#[verifier::external_body]
pub struct ExInstant(std::time::Instant);

/// `std::time::Instant::now`: the current instant. Nothing is claimed of it.
pub assume_specification[ std::time::Instant::now ]() -> std::time::Instant;

/// `std::time::Duration::from_secs`: a duration of that many seconds. Nothing is claimed of it.
pub assume_specification[ std::time::Duration::from_secs ](secs: u64) -> std::time::Duration;

/// `std::time::Duration::from_nanos`: a duration of that many nanoseconds. Nothing is claimed of
/// it.
pub assume_specification[ std::time::Duration::from_nanos ](nanos: u64) -> std::time::Duration;

/// `std::time::Instant::checked_add`: the instant that much later, if the clock can represent it.
/// Nothing is claimed of the answer: it depends on the clock.
pub assume_specification[ std::time::Instant::checked_add ](
    instant: &std::time::Instant,
    duration: std::time::Duration,
) -> Option<std::time::Instant>;

/// `reachable` is an answer of the clock on an interval of that many seconds: whether adding a
/// duration made of exactly these seconds to an instant that was the current one gives an instant.
/// Which answer comes depends on the clock.
pub open spec fn clock_answers(seconds: u64, reachable: bool) -> bool {
    exists|
        now: std::time::Instant,
        interval: std::time::Duration,
        later: Option<std::time::Instant>,
    |
        {
            &&& #[trigger] call_ensures(std::time::Instant::now, (), now)
            &&& #[trigger] call_ensures(std::time::Duration::from_secs, (seconds,), interval)
            &&& #[trigger] call_ensures(
                std::time::Instant::checked_add,
                (&now, interval),
                later,
            )
            &&& reachable == (later is Some)
        }
}

/// Whether the clock can represent the instant that many seconds from now. The result is what the
/// clock answers for exactly that interval.
pub(crate) fn clock_reaches(seconds: u64) -> (r: bool)
    ensures
        clock_answers(seconds, r),
{
    let current = std::time::Instant::now;
    let whole_seconds = std::time::Duration::from_secs;
    let add_to = std::time::Instant::checked_add;
    let now = current();
    let interval = whole_seconds(seconds);
    let later = add_to(&now, interval);
    later.is_some()
}

/// `at` is an answer of the clock on the instant that many nanoseconds behind `epoch`.
pub open spec fn instant_at(
    epoch: std::time::Instant,
    nanos: u64,
    at: Option<std::time::Instant>,
) -> bool {
    exists|interval: std::time::Duration|
        {
            &&& #[trigger] call_ensures(std::time::Duration::from_nanos, (nanos,), interval)
            &&& call_ensures(std::time::Instant::checked_add, (&epoch, interval), at)
        }
}

/// `reachable` is an answer of the clock on the instant that many seconds behind `at`.
pub open spec fn reaches_from(at: std::time::Instant, seconds: u64, reachable: bool) -> bool {
    exists|interval: std::time::Duration, later: Option<std::time::Instant>|
        {
            &&& #[trigger] call_ensures(std::time::Duration::from_secs, (seconds,), interval)
            &&& #[trigger] call_ensures(std::time::Instant::checked_add, (&at, interval), later)
            &&& reachable == (later is Some)
        }
}

/// `reachable` is an answer of the clock on a deadline: that many seconds behind the instant that
/// is `first` nanoseconds behind `epoch`.
pub open spec fn deadline_answers(
    epoch: std::time::Instant,
    first: u64,
    seconds: u64,
    reachable: bool,
) -> bool {
    exists|at: Option<std::time::Instant>| #[trigger]
        instant_at(epoch, first, at) && match at {
            None => !reachable,
            Some(start) => reaches_from(start, seconds, reachable),
        }
}

/// Whether the clock can represent a deadline: that many seconds behind the instant that is
/// `first` nanoseconds behind `epoch`. The result is what the clock answers for exactly these.
pub(crate) fn deadline_reaches(epoch: &std::time::Instant, first: u64, seconds: u64) -> (r: bool)
    ensures
        deadline_answers(*epoch, first, seconds, r),
{
    let nanoseconds = std::time::Duration::from_nanos;
    let whole_seconds = std::time::Duration::from_secs;
    let add_to = std::time::Instant::checked_add;
    let elapsed = nanoseconds(first);
    let at = add_to(epoch, elapsed);
    assert(instant_at(*epoch, first, at));
    match at {
        None => false,
        Some(start) => {
            let interval = whole_seconds(seconds);
            let later = add_to(&start, interval);
            let reachable = later.is_some();
            assert(reaches_from(start, seconds, reachable));
            reachable
        },
    }
}

/// An update interval is valid when it is positive and the clock can represent its deadline.
pub open spec fn interval_ok(value: u64, reachable: bool) -> bool {
    value > 0 && reachable
}

/// Validity of an update interval, given whether the clock can represent its deadline.
pub fn accepts_update_time(value: u64, reachable: bool) -> (r: bool)
    ensures
        r == interval_ok(value, reachable),
{
    value > 0 && reachable
}

/// Validity of an update interval by the clock of this machine: zero never is valid, and another
/// value is exactly when the clock, asked for that value, can represent the deadline.
pub fn valid_update_time(value: u64) -> (r: bool)
    ensures
        exists|reachable: bool|
            #[trigger] clock_answers(value, reachable) && r == interval_ok(value, reachable),
{
    let reachable = clock_reaches(value);
    accepts_update_time(value, reachable)
}

pub fn valid_update_count(value: usize) -> (r: bool)
    ensures
        r == (value > 0),
{
    value > 0
}

/// What is wrong with a configuration, given whether the clock can represent its deadline.
pub open spec fn config_fault(config: ConfigView, reachable: bool) -> Option<ConfigError> {
    if !safe_suffix(config.suffix) {
        Some(ConfigError::UnsafeSuffix)
    } else if config.update_count == 0 {
        Some(ConfigError::UpdateCount)
    } else if !interval_ok(config.update_time, reachable) {
        Some(ConfigError::UpdateTime)
    } else {
        None
    }
}

pub open spec fn verdict(fault: Option<ConfigError>) -> Result<(), ConfigError> {
    match fault {
        Some(e) => Err(e),
        None => Ok(()),
    }
}

/// The directory for recovery files below a state directory.
pub open spec fn recovery_directory_of(state_dir: Seq<u8>) -> Seq<u8> {
    joined(state_dir, encode_utf8("recovery"@))
}

pub fn recovery_directory(state_dir: &NativePath) -> (r: NativePath)
    ensures
        r@ == recovery_directory_of(state_dir@),
{
    state_dir.join(&NativePath::from_text("recovery"))
}

/// Recovery is off by default; snapshots are taken every 200 characters or 4 seconds.
pub open spec fn default_config(state_dir: Seq<u8>) -> ConfigView {
    ConfigView {
        enable: false,
        keep_recovered: false,
        directories: seq![
            encode_utf8("."@),
            recovery_directory_of(state_dir),
            encode_utf8("/var/tmp"@),
            encode_utf8("/tmp"@),
        ],
        suffix: ".swp"@,
        size_threshold: 0,
        update_count: 200,
        update_time: 4,
    }
}

impl Config {
    /// The defaults, with the recovery directory of the given state directory second.
    pub fn default_in(state_dir: &NativePath) -> (r: Config)
        ensures
            r@ == default_config(state_dir@),
    {
        let mut directories: Vec<NativePath> = Vec::new();
        directories.push(NativePath::from_text("."));
        directories.push(recovery_directory(state_dir));
        directories.push(NativePath::from_text("/var/tmp"));
        directories.push(NativePath::from_text("/tmp"));
        let r = Config {
            enable: false,
            keep_recovered: false,
            directories,
            suffix: ".swp".to_owned(),
            size_threshold: 0,
            update_count: 200,
            update_time: 4,
        };
        assert(r@.directories =~= default_config(state_dir@).directories);
        r
    }

    /// Validity, given whether the clock can represent the deadline of the update interval.
    pub fn validate_with(&self, reachable: bool) -> (r: Result<(), ConfigError>)
        ensures
            r == verdict(config_fault(self@, reachable)),
    {
        if !valid_suffix(self.suffix.as_str()) {
            return Err(ConfigError::UnsafeSuffix);
        }
        if !valid_update_count(self.update_count) {
            return Err(ConfigError::UpdateCount);
        }
        if !accepts_update_time(self.update_time, reachable) {
            return Err(ConfigError::UpdateTime);
        }
        Ok(())
    }

    /// Validity by the clock of this machine.
    pub fn validate(&self) -> (r: Result<(), ConfigError>)
        ensures
            exists|reachable: bool| #[trigger]
                clock_answers(self.update_time, reachable) && r == verdict(
                    config_fault(self@, reachable),
                ),
    {
        let reachable = clock_reaches(self.update_time);
        self.validate_with(reachable)
    }
}

/// Law: where an update interval is valid, a shorter positive one is, on a clock that reaches the
/// shorter one whenever it reaches the longer. So is a configuration with the shorter interval.
pub proof fn law_shorter_intervals_stay_valid(
    reaches: spec_fn(u64) -> bool,
    config: ConfigView,
    shorter: u64,
)
    requires
        0 < shorter <= config.update_time,
        reaches(config.update_time) ==> reaches(shorter),
    ensures
        interval_ok(config.update_time, reaches(config.update_time)) ==> interval_ok(
            shorter,
            reaches(shorter),
        ),
        config_fault(config, reaches(config.update_time)) is None ==> config_fault(
            (ConfigView { update_time: shorter, ..config }),
            reaches(shorter),
        ) is None,
{
}

/// The number of an ASCII letter or digit, or of `.`, `_` or `-`.
pub open spec fn suffix_number(n: int) -> bool {
    97 <= n <= 122 || 65 <= n <= 90 || 48 <= n <= 57 || n == 46 || n == 95 || n == 45
}

/// Law: a suffix is safe exactly when it has one to 64 characters, all of them ASCII letters,
/// digits, dots, underscores or dashes, and does not end in a dot. So it names no directory.
pub proof fn law_safe_suffixes(suffix: Seq<char>)
    ensures
        safe_suffix(suffix) <==> {
            &&& 1 <= suffix.len() <= 64
            &&& suffix[suffix.len() - 1] != '.'
            &&& forall|i: int|
                0 <= i < suffix.len() ==> suffix_number((#[trigger] suffix[i]) as int)
        },
        safe_suffix(suffix) ==> !suffix.contains('/') && !suffix.contains('\0'),
{
    assert forall|i: int| 0 <= i < suffix.len() implies (safe_char(#[trigger] suffix[i])
        <==> suffix_number(suffix[i] as int)) by {
        let c: char = suffix[i];
        assert(safe_char(c) <==> suffix_number(c as int));
    }
}

/// Law: a configuration is valid exactly when its suffix is safe, its update count is positive,
/// and its update interval is positive and within the clock. What is wrong is told in this order.
/// Nothing else of a configuration can be wrong.
pub proof fn law_valid_configurations(config: ConfigView, reachable: bool)
    ensures
        ({
            let suffix = safe_suffix(config.suffix);
            let fault = config_fault(config, reachable);
            &&& fault is None <==> suffix && config.update_count > 0 && config.update_time > 0
                && reachable
            &&& fault == Some(ConfigError::UnsafeSuffix) <==> !suffix
            &&& fault == Some(ConfigError::UpdateCount) <==> suffix && config.update_count == 0
            &&& fault == Some(ConfigError::UpdateTime) <==> suffix && config.update_count > 0 && (
            config.update_time == 0 || !reachable)
        }),
        interval_ok(config.update_time, reachable) <==> config.update_time > 0 && reachable,
        verdict(config_fault(config, reachable)) is Ok <==> config_fault(config, reachable) is None,
        config_fault(config, reachable) matches Some(e) ==> verdict(Some(e)) == Err::<
            (),
            ConfigError,
        >(e),
{
}

/// Law: by default recovery is off, backups are not kept, files lie beside the original, then in
/// the recovery directory of the state directory, then in two common ones, the suffix is that of
/// swap files, no size is too large, and snapshots are taken every 200 characters or 4 seconds.
/// The defaults are valid on a clock that reaches that interval.
pub proof fn law_defaults(state_dir: Seq<u8>)
    requires
        is_absolute(state_dir),
    ensures
        ({
            let config = default_config(state_dir);
            &&& !config.enable && !config.keep_recovered
            &&& config.directories.len() == 4
            &&& config.directories[0] == seq![46u8]
            &&& components(config.directories[1]) == components(state_dir).push(
                Component::Normal(encode_utf8("recovery"@)),
            )
            &&& config.directories[2] == encode_utf8("/var/tmp"@)
            &&& config.directories[3] == encode_utf8("/tmp"@)
            &&& config.suffix == ".swp"@
            &&& config.size_threshold == 0
            &&& config.update_count == 200 && config.update_time == 4
            &&& config_fault(config, true) is None
        }),
{
    reveal_strlit(".");
    reveal_strlit(".swp");
    reveal_strlit("recovery");
    vstd::utf8::is_ascii_chars_encode_utf8("."@);
    vstd::utf8::is_ascii_chars_encode_utf8("recovery"@);
    assert(encode_utf8("."@) =~= seq![46u8]);
    let name = encode_utf8("recovery"@);
    assert(name.len() == 8);
    assert forall|i: int| 0 <= i < name.len() implies #[trigger] name[i] != 47 by {
        assert("recovery"@[i] as u8 == name[i]);
    }
    law_join_components(state_dir, name);
    lemma_no_separator(name);
    assert(pieces(name) =~= seq![Component::Normal(name)]);
    assert(components(state_dir) + pieces(name) =~= components(state_dir).push(
        Component::Normal(name),
    ));
    assert(safe_suffix(".swp"@));
}

/// Law: the clock is asked for exactly the interval of the settings, from the current instant, and
/// for a deadline exactly that interval behind the instant of the first pending change.
pub proof fn law_clock_is_asked_for_the_interval(
    seconds: u64,
    reachable: bool,
    epoch: std::time::Instant,
    first: u64,
)
    ensures
        clock_answers(seconds, reachable) ==> exists|
            now: std::time::Instant,
            interval: std::time::Duration,
            later: Option<std::time::Instant>,
        |
            {
                &&& #[trigger] call_ensures(std::time::Instant::now, (), now)
                &&& #[trigger] call_ensures(std::time::Duration::from_secs, (seconds,), interval)
                &&& #[trigger] call_ensures(
                    std::time::Instant::checked_add,
                    (&now, interval),
                    later,
                )
                &&& reachable <==> later is Some
            },
        deadline_answers(epoch, first, seconds, reachable) ==> exists|
            elapsed: std::time::Duration,
            at: Option<std::time::Instant>,
        |
            {
                &&& #[trigger] call_ensures(std::time::Duration::from_nanos, (first,), elapsed)
                &&& #[trigger] call_ensures(
                    std::time::Instant::checked_add,
                    (&epoch, elapsed),
                    at,
                )
                &&& at is None ==> !reachable
                &&& at matches Some(start) ==> exists|
                    interval: std::time::Duration,
                    later: Option<std::time::Instant>,
                |
                    {
                        &&& #[trigger] call_ensures(
                            std::time::Duration::from_secs,
                            (seconds,),
                            interval,
                        )
                        &&& #[trigger] call_ensures(
                            std::time::Instant::checked_add,
                            (&start, interval),
                            later,
                        )
                        &&& reachable <==> later is Some
                    }
            },
{
}

} // verus!
