//! The configuration store: a typed key/value table of settings,
//! addressed by section and key, hot-swappable as one value.
//!
//! Each entry declares its type; updates are checked against it.  The
//! table is consumed read-only by the other components; callers load
//! it, swap it, and persist it outside this crate.

use vstd::prelude::*;

use crate::errors::ConfigError;
use crate::model::clone_string;
use crate::text::{parse_bool, parse_i32, parse_i64};

verus! {

/// The declared type of a setting.
#[allow(non_camel_case_types)]
#[derive(Clone, Copy, Debug, PartialEq, Eq, Structural)]
pub enum ValueType {
    STRING,
    INT,
    BIGINT,
    BOOL,
}

/// The stored code of a value type.
pub open spec fn type_code(t: ValueType) -> int {
    match t {
        ValueType::STRING => 0,
        ValueType::INT => 1,
        ValueType::BIGINT => 2,
        ValueType::BOOL => 3,
    }
}

impl ValueType {
    /// The stored code of this type.
    pub fn to_i32(self) -> (r: i32)
        ensures
            r == type_code(self),
    {
        match self {
            ValueType::STRING => 0,
            ValueType::INT => 1,
            ValueType::BIGINT => 2,
            ValueType::BOOL => 3,
        }
    }

    /// The type a stored code names.  Codes outside the table are
    /// rejected by precondition rather than by failure.
    pub fn from_i32(n: i32) -> (r: ValueType)
        requires
            0 <= n <= 3,
        ensures
            type_code(r) == n,
    {
        match n {
            0 => ValueType::STRING,
            1 => ValueType::INT,
            2 => ValueType::BIGINT,
            _ => ValueType::BOOL,
        }
    }
}

/// What a lookup yields: the stored value and the entry's description.
#[derive(Clone, Debug)]
pub struct CachedConfig {
    pub value: Option<String>,
    pub description: String,
}

/// One stored setting.
#[derive(Clone, Debug)]
pub struct ConfigEntry {
    pub section: String,
    pub key: String,
    pub value_type: ValueType,
    pub description: String,
    pub value: Option<String>,
}

/// Mathematical image of a [`ConfigEntry`].
#[verifier::ext_equal]
pub struct ConfigEntryView {
    pub section: Seq<char>,
    pub key: Seq<char>,
    pub value_type: ValueType,
    pub description: Seq<char>,
    pub value: Option<Seq<char>>,
}

impl View for ConfigEntry {
    type V = ConfigEntryView;

    open spec fn view(&self) -> ConfigEntryView {
        ConfigEntryView {
            section: self.section@,
            key: self.key@,
            value_type: self.value_type,
            description: self.description@,
            value: match self.value {
                Some(ref v) => Some(v@),
                None => None,
            },
        }
    }
}

impl DeepView for ConfigEntry {
    type V = ConfigEntryView;

    open spec fn deep_view(&self) -> ConfigEntryView {
        self.view()
    }
}

/// Some entry lives in this section.
pub open spec fn has_section(es: Seq<ConfigEntryView>, section: Seq<char>) -> bool {
    exists|i: int| 0 <= i < es.len() && (#[trigger] es[i]).section == section
}

/// Some entry carries this section and key.
pub open spec fn has_entry(es: Seq<ConfigEntryView>, section: Seq<char>, key: Seq<char>) -> bool {
    exists|i: int|
        0 <= i < es.len() && (#[trigger] es[i]).section == section && es[i].key == key
}

/// The entry carrying this section and key (unique under
/// well-formedness).
pub open spec fn entry_for(es: Seq<ConfigEntryView>, section: Seq<char>, key: Seq<char>) -> ConfigEntryView {
    es[choose|i: int|
        0 <= i < es.len() && (#[trigger] es[i]).section == section && es[i].key == key]
}

/// The typed key/value table.
#[derive(Debug)]
pub struct Config {
    pub entries: Vec<ConfigEntry>,
}

impl View for Config {
    type V = Seq<ConfigEntryView>;

    open spec fn view(&self) -> Seq<ConfigEntryView> {
        self.entries.deep_view()
    }
}

impl Config {
    /// No two entries share a section and key.
    pub open spec fn wf(self) -> bool {
        forall|i: int, j: int|
            0 <= i < self@.len() && 0 <= j < self@.len() && i != j ==> !((#[trigger] self@[i]).section
                == (#[trigger] self@[j]).section && self@[i].key == self@[j].key)
    }

    /// An empty table.
    pub fn new() -> (r: Config)
        ensures
            r.wf(),
            r@.len() == 0,
    {
        Config { entries: Vec::new() }
    }

    /// Position of the entry carrying this section and key.
    fn find_entry(&self, section: &String, key: &String) -> (r: Option<usize>)
        ensures
            match r {
                Some(i) => i < self@.len() && self@[i as int].section == section@
                    && self@[i as int].key == key@,
                None => !has_entry(self@, section@, key@),
            },
    {
        let mut i: usize = 0;
        while i < self.entries.len()
            invariant
                i <= self.entries@.len(),
                self@.len() == self.entries@.len(),
                forall|q: int| 0 <= q < self@.len() ==> #[trigger] self@[q] == self.entries@[q]@,
                forall|j: int|
                    0 <= j < i ==> !((#[trigger] self@[j]).section == section@ && self@[j].key
                        == key@),
            decreases self.entries@.len() - i,
        {
            let e = &self.entries[i];
            if e.section.eq(section) && e.key.eq(key) {
                return Some(i);
            }
            i += 1;
        }
        None
    }

    /// Whether any entry lives in this section.
    fn section_exists(&self, section: &String) -> (r: bool)
        ensures
            r == has_section(self@, section@),
    {
        let mut i: usize = 0;
        while i < self.entries.len()
            invariant
                i <= self.entries@.len(),
                self@.len() == self.entries@.len(),
                forall|q: int| 0 <= q < self@.len() ==> #[trigger] self@[q] == self.entries@[q]@,
                forall|j: int| 0 <= j < i ==> (#[trigger] self@[j]).section != section@,
            decreases self.entries@.len() - i,
        {
            if self.entries[i].section.eq(section) {
                proof {
                    assert(self@[i as int].section == section@);
                }
                return true;
            }
            i += 1;
        }
        false
    }

    /// Store a new entry unless its section and key are taken: the
    /// store's uniqueness rule surfaces as `false`, not as an error.
    pub fn insert(&mut self, entry: ConfigEntry) -> (r: bool)
        requires
            old(self).wf(),
        ensures
            final(self).wf(),
            r == !has_entry(old(self)@, entry@.section, entry@.key),
            r ==> final(self)@ =~= old(self)@.push(entry@),
            !r ==> final(self)@ =~= old(self)@,
            has_entry(final(self)@, entry@.section, entry@.key),
    {
        if self.find_entry(&entry.section, &entry.key).is_some() {
            return false;
        }
        let ghost e0 = entry@;
        let ghost s0 = self@;
        self.entries.push(entry);
        proof {
            let s1 = self@;
            assert forall|j: int| 0 <= j < s1.len() implies s1[j] =~= s0.push(e0)[j] by {}
            assert(s1 =~= s0.push(e0));
            let n = s0.len() as int;
            assert(s1[n].section == e0.section && s1[n].key == e0.key);
            assert(has_entry(s1, e0.section, e0.key));
            assert forall|i: int, j: int|
                0 <= i < s1.len() && 0 <= j < s1.len() && i != j implies !((#[trigger] s1[i]).section
                == (#[trigger] s1[j]).section && s1[i].key == s1[j].key) by {
                if i < n && j < n {
                    assert(!(s0[i].section == s0[j].section && s0[i].key == s0[j].key));
                } else if i < n && j == n {
                    assert(!(s0[i].section == e0.section && s0[i].key == e0.key));
                } else if i == n && j < n {
                    assert(!(s0[j].section == e0.section && s0[j].key == e0.key));
                }
            }
        }
        true
    }

    /// The stored value and description under this section and key.
    /// A missing section is an error (the table was never seeded); a
    /// missing key or an unset value yields `None`.
    pub fn get(&self, section: &String, key: &String) -> (r: Result<
        Option<CachedConfig>,
        ConfigError,
    >)
        requires
            self.wf(),
        ensures
            match r {
                Ok(Some(c)) => has_entry(self@, section@, key@) && {
                    let e = entry_for(self@, section@, key@);
                    &&& c.value.deep_view() == e.value
                    &&& c.description@ == e.description
                    &&& e.value is Some
                },
                Ok(None) => has_section(self@, section@) && (!has_entry(self@, section@, key@)
                    || entry_for(self@, section@, key@).value is None),
                Err(e) => e == ConfigError::MissingEntry && !has_section(self@, section@),
            },
    {
        if !self.section_exists(section) {
            return Err(ConfigError::MissingEntry);
        }
        match self.find_entry(section, key) {
            None => Ok(None),
            Some(i) => {
                proof {
                    let es = self@;
                    let c = choose|c: int|
                        0 <= c < es.len() && (#[trigger] es[c]).section == section@ && es[c].key
                            == key@;
                    assert(!(es[c].section == es[i as int].section && es[c].key == es[
                    i as int].key) || c == i as int);
                }
                let e = &self.entries[i];
                match e.value {
                    None => Ok(None),
                    Some(ref v) => Ok(
                        Some(
                            CachedConfig {
                                value: Some(clone_string(v)),
                                description: clone_string(&e.description),
                            },
                        ),
                    ),
                }
            }
        }
    }

    /// The declared type under this section and key; missing entries
    /// are an error, as the type table is seeded once at setup.
    pub fn get_type(&self, section: &String, key: &String) -> (r: Result<ValueType, ConfigError>)
        requires
            self.wf(),
        ensures
            match r {
                Ok(t) => has_entry(self@, section@, key@) && t == entry_for(
                    self@,
                    section@,
                    key@,
                ).value_type,
                Err(e) => e == ConfigError::MissingEntry && !has_entry(self@, section@, key@),
            },
    {
        match self.find_entry(section, key) {
            None => Err(ConfigError::MissingEntry),
            Some(i) => {
                proof {
                    let es = self@;
                    let c = choose|c: int|
                        0 <= c < es.len() && (#[trigger] es[c]).section == section@ && es[c].key
                            == key@;
                    assert(!(es[c].section == es[i as int].section && es[c].key == es[
                    i as int].key) || c == i as int);
                }
                Ok(self.entries[i].value_type)
            }
        }
    }

    /// Update the value under this section and key after checking it
    /// against the entry's declared type: integers must read as
    /// decimals of the right width, booleans as `true` or `false`;
    /// strings are free; clearing with `None` is always allowed.
    pub fn set_value(&mut self, section: &String, key: &String, value: Option<String>) -> (r:
        Result<(), ConfigError>)
        requires
            old(self).wf(),
        ensures
            final(self).wf(),
            match r {
                Ok(()) => has_entry(old(self)@, section@, key@)
                    && final(self)@ =~= old(self)@.update(
                    entry_pos(old(self)@, section@, key@),
                    ConfigEntryView {
                        value: value.deep_view(),
                        ..entry_for(old(self)@, section@, key@)
                    },
                ),
                Err(ConfigError::MissingEntry) => !has_entry(old(self)@, section@, key@)
                    && final(self)@ =~= old(self)@,
                Err(ConfigError::TypeMismatch) => has_entry(old(self)@, section@, key@)
                    && final(self)@ =~= old(self)@ && !value_fits(
                    value.deep_view(),
                    entry_for(old(self)@, section@, key@).value_type,
                ),
            },
            r is Ok ==> value_fits(
                value.deep_view(),
                entry_for(old(self)@, section@, key@).value_type,
            ),
    {
        let i = match self.find_entry(section, key) {
            None => {
                return Err(ConfigError::MissingEntry);
            }
            Some(i) => i,
        };
        proof {
            let es = self@;
            let c = choose|c: int|
                0 <= c < es.len() && (#[trigger] es[c]).section == section@ && es[c].key == key@;
            assert(!(es[c].section == es[i as int].section && es[c].key == es[i as int].key) || c
                == i as int);
        }
        let ok = match value {
            None => true,
            Some(ref v) => {
                match self.entries[i].value_type {
                    ValueType::STRING => true,
                    ValueType::INT => parse_i32(v.as_str()).is_some(),
                    ValueType::BIGINT => parse_i64(v.as_str()).is_some(),
                    ValueType::BOOL => parse_bool(v.as_str()).is_some(),
                }
            }
        };
        if !ok {
            return Err(ConfigError::TypeMismatch);
        }
        let ghost s0 = self@;
        let ghost vv = value.deep_view();
        let mut e = self.entries.remove(i);
        e.value = value;
        self.entries.insert(i, e);
        proof {
            let s1 = self@;
            let target = ConfigEntryView { value: vv, ..entry_for(s0, section@, key@) };
            assert forall|j: int| 0 <= j < s1.len() implies s1[j] =~= s0.update(
                i as int,
                target,
            )[j] by {}
            assert(s1 =~= s0.update(i as int, target));
            assert forall|a: int, b: int|
                0 <= a < s1.len() && 0 <= b < s1.len() && a != b implies !((#[trigger] s1[a]).section
                == (#[trigger] s1[b]).section && s1[a].key == s1[b].key) by {
                assert(s1[a].section == s0[a].section && s1[a].key == s0[a].key);
                assert(s1[b].section == s0[b].section && s1[b].key == s0[b].key);
                assert(!(s0[a].section == s0[b].section && s0[a].key == s0[b].key));
            }
        }
        Ok(())
    }
}

impl Config {
    /// The value under this section and key read as a 32-bit integer;
    /// unset, missing or unreadable values yield `None`.
    pub fn get_i32(&self, section: &String, key: &String) -> (r: Result<Option<i32>, ConfigError>)
        requires
            self.wf(),
        ensures
            match r {
                Ok(Some(v)) => stored_value(self@, section@, key@) matches Some(s)
                    && crate::text::is_int_str(s) && i32::MIN <= crate::text::int_value(s)
                    <= i32::MAX && v == crate::text::int_value(s),
                Ok(None) => has_section(self@, section@) && match stored_value(
                    self@,
                    section@,
                    key@,
                ) {
                    Some(s) => !(crate::text::is_int_str(s) && i32::MIN <= crate::text::int_value(
                        s,
                    ) <= i32::MAX),
                    None => true,
                },
                Err(e) => e == ConfigError::MissingEntry && !has_section(self@, section@),
            },
    {
        match self.get(section, key) {
            Err(e) => Err(e),
            Ok(None) => Ok(None),
            Ok(Some(c)) => match c.value {
                None => Ok(None),
                Some(v) => Ok(parse_i32(v.as_str())),
            },
        }
    }

    /// The value under this section and key read as a 64-bit integer;
    /// unset, missing or unreadable values yield `None`.
    pub fn get_i64(&self, section: &String, key: &String) -> (r: Result<Option<i64>, ConfigError>)
        requires
            self.wf(),
        ensures
            match r {
                Ok(Some(v)) => stored_value(self@, section@, key@) matches Some(s)
                    && crate::text::is_int_str(s) && i64::MIN <= crate::text::int_value(s)
                    <= i64::MAX && v == crate::text::int_value(s),
                Ok(None) => has_section(self@, section@) && match stored_value(
                    self@,
                    section@,
                    key@,
                ) {
                    Some(s) => !(crate::text::is_int_str(s) && i64::MIN <= crate::text::int_value(
                        s,
                    ) <= i64::MAX),
                    None => true,
                },
                Err(e) => e == ConfigError::MissingEntry && !has_section(self@, section@),
            },
    {
        match self.get(section, key) {
            Err(e) => Err(e),
            Ok(None) => Ok(None),
            Ok(Some(c)) => match c.value {
                None => Ok(None),
                Some(v) => Ok(parse_i64(v.as_str())),
            },
        }
    }

    /// The value under this section and key read as a boolean; unset,
    /// missing or unreadable values yield `None`.
    pub fn get_bool(&self, section: &String, key: &String) -> (r: Result<
        Option<bool>,
        ConfigError,
    >)
        requires
            self.wf(),
        ensures
            match r {
                Ok(Some(b)) => stored_value(self@, section@, key@) matches Some(s) && (s == "true"@
                    || s == "false"@) && b == (s == "true"@),
                Ok(None) => has_section(self@, section@) && match stored_value(
                    self@,
                    section@,
                    key@,
                ) {
                    Some(s) => s != "true"@ && s != "false"@,
                    None => true,
                },
                Err(e) => e == ConfigError::MissingEntry && !has_section(self@, section@),
            },
    {
        match self.get(section, key) {
            Err(e) => Err(e),
            Ok(None) => Ok(None),
            Ok(Some(c)) => match c.value {
                None => Ok(None),
                Some(v) => Ok(parse_bool(v.as_str())),
            },
        }
    }
}

/// The value stored under this section and key, if the entry exists
/// and its value is set.
pub open spec fn stored_value(es: Seq<ConfigEntryView>, section: Seq<char>, key: Seq<char>) -> Option<Seq<char>> {
    if has_entry(es, section, key) {
        entry_for(es, section, key).value
    } else {
        None
    }
}

/// Position of the entry carrying this section and key.
pub open spec fn entry_pos(es: Seq<ConfigEntryView>, section: Seq<char>, key: Seq<char>) -> int {
    choose|i: int|
        0 <= i < es.len() && (#[trigger] es[i]).section == section && es[i].key == key
}

/// A value is acceptable for a declared type: unset always; set
/// strings always; set integers and booleans when they read as such.
pub open spec fn value_fits(value: Option<Seq<char>>, t: ValueType) -> bool {
    match value {
        None => true,
        Some(v) => match t {
            ValueType::STRING => true,
            ValueType::INT => crate::text::is_int_str(v) && i32::MIN <= crate::text::int_value(v)
                <= i32::MAX,
            ValueType::BIGINT => crate::text::is_int_str(v) && i64::MIN <= crate::text::int_value(
                v,
            ) <= i64::MAX,
            ValueType::BOOL => v == "true"@ || v == "false"@,
        },
    }
}

impl Config {
    /// Store one default entry unless its section and key already
    /// exist: seeding never clobbers operator-set values.
    fn seed(
        &mut self,
        section: &str,
        key: &str,
        value_type: ValueType,
        value: Option<&str>,
        description: &str,
    )
        requires
            old(self).wf(),
        ensures
            final(self).wf(),
            old(self)@.is_prefix_of(final(self)@),
            has_entry(final(self)@, section@, key@),
            forall|a: Seq<char>, b: Seq<char>|
                has_entry(old(self)@, a, b) ==> #[trigger] has_entry(final(self)@, a, b),
            !has_entry(old(self)@, section@, key@) ==> entry_for(final(self)@, section@, key@)
                =~= (ConfigEntryView {
                section: section@,
                key: key@,
                value_type,
                description: description@,
                value: value.deep_view(),
            }),
    {
        let entry = ConfigEntry {
            section: String::from_str(section),
            key: String::from_str(key),
            value_type,
            description: String::from_str(description),
            value: match value {
                Some(v) => Some(String::from_str(v)),
                None => None,
            },
        };
        let ghost e0 = entry@;
        let ghost s0 = self@;
        let inserted = self.insert(entry);
        proof {
            let s1 = self@;
            if inserted {
                assert(forall|j: int| 0 <= j < s0.len() ==> s1[j] == s0[j]);
                assert(s0 =~= s1.subrange(0, s0.len() as int));
                let n = s0.len() as int;
                let c = choose|c: int|
                    0 <= c < s1.len() && (#[trigger] s1[c]).section == section@ && s1[c].key
                        == key@;
                if c < n {
                    assert(has_entry(s0, section@, key@));
                } else {
                    assert(entry_for(s1, section@, key@) == e0);
                }
            } else {
                assert(s0 =~= s1.subrange(0, s0.len() as int));
            }
            assert forall|a: Seq<char>, b: Seq<char>|
                has_entry(s0, a, b) implies #[trigger] has_entry(s1, a, b) by {
                let w = choose|w: int|
                    0 <= w < s0.len() && (#[trigger] s0[w]).section == a && s0[w].key == b;
                assert(s1[w] == s0[w]);
            }
        }
    }

    /// Seed the table with every setting the system understands, each
    /// with its declared type, default value and operator-facing
    /// description.  Entries that already exist keep their stored
    /// values; running this again is harmless.
    pub fn first_setup(&mut self)
        requires
            old(self).wf(),
        ensures
            final(self).wf(),
            forall|a: Seq<char>, b: Seq<char>|
                has_entry(old(self)@, a, b) ==> #[trigger] has_entry(final(self)@, a, b),
            has_entry(final(self)@, "roles"@, "admin"@),
            has_entry(final(self)@, "roles"@, "trader"@),
            has_entry(final(self)@, "trading"@, "account_name"@),
            has_entry(final(self)@, "trading"@, "symbol"@),
            has_entry(final(self)@, "trading"@, "buy_timeout_s"@),
            has_entry(final(self)@, "trading"@, "sell_timeout_s"@),
            has_entry(final(self)@, "trading"@, "price_command_price_len"@),
            has_entry(final(self)@, "general"@, "command_timeout"@),
            has_entry(final(self)@, "schedule"@, "reservation_interval_min"@),
            has_entry(final(self)@, "schedule"@, "timezone"@),
            has_entry(final(self)@, "schedule"@, "reservation_alert_min"@),
            has_entry(final(self)@, "schedule"@, "reservation_lock_min"@),
            has_entry(final(self)@, "channels"@, "reservation_alert"@),
            has_entry(final(self)@, "trading"@, "quote_asset_threshold"@),
            has_entry(final(self)@, "trading"@, "base_asset_threshold"@),
            has_entry(final(self)@, "channels"@, "order_status"@),
            has_entry(final(self)@, "channels"@, "afk_channel"@),
            has_entry(final(self)@, "schedule"@, "afk_warn_min"@),
            has_entry(final(self)@, "schedule"@, "afk_timeout_min"@),
    {
        self.seed("roles", "admin", ValueType::BIGINT, None, "Role ID for admins");
        self.seed("roles", "trader", ValueType::BIGINT, None, "Role ID for traders");
        self.seed(
            "trading",
            "account_name",
            ValueType::STRING,
            None,
            "Active account name; set through the account command only",
        );
        self.seed(
            "trading",
            "symbol",
            ValueType::STRING,
            Some("BTCUSDT"),
            "The symbol pair you are trading",
        );
        self.seed(
            "trading",
            "buy_timeout_s",
            ValueType::INT,
            Some("60"),
            "The time for the buy command to stop waiting for a response",
        );
        self.seed(
            "trading",
            "sell_timeout_s",
            ValueType::INT,
            Some("60"),
            "The time for the sell command to stop waiting for a response",
        );
        self.seed(
            "trading",
            "price_command_price_len",
            ValueType::INT,
            Some("100"),
            "The max length of intervals shown on the price command",
        );
        self.seed(
            "general",
            "command_timeout",
            ValueType::INT,
            Some("300"),
            "The overall timeout for commands before the task is killed",
        );
        self.seed(
            "schedule",
            "reservation_interval_min",
            ValueType::INT,
            Some("15"),
            "The interval between available reservations; do not change without clearing reservations",
        );
        self.seed(
            "schedule",
            "timezone",
            ValueType::STRING,
            Some("America/Chicago"),
            "Timezone name from the tz database",
        );
        self.seed(
            "schedule",
            "reservation_alert_min",
            ValueType::INT,
            Some("15"),
            "Amount of mins before a reservation to alert the user",
        );
        self.seed(
            "schedule",
            "reservation_lock_min",
            ValueType::INT,
            Some("15"),
            "Amount of mins after a reservation that the account is locked",
        );
        self.seed(
            "channels",
            "reservation_alert",
            ValueType::BIGINT,
            None,
            "Channel ID for reservation alerts to be sent in",
        );
        self.seed(
            "trading",
            "quote_asset_threshold",
            ValueType::STRING,
            Some("10"),
            "Amount of money in quote balance for it to count as a full buy",
        );
        self.seed(
            "trading",
            "base_asset_threshold",
            ValueType::STRING,
            Some("0.0001"),
            "Amount of money in base balance for it to count as a full sell",
        );
        self.seed(
            "channels",
            "order_status",
            ValueType::BIGINT,
            None,
            "The channel to send order clearing notifications; unset means off",
        );
        self.seed(
            "channels",
            "afk_channel",
            ValueType::BIGINT,
            None,
            "The channel to send afk checks to; unset means off",
        );
        self.seed(
            "schedule",
            "afk_warn_min",
            ValueType::INT,
            Some("15"),
            "Time in mins of inactivity before an afk check",
        );
        self.seed(
            "schedule",
            "afk_timeout_min",
            ValueType::INT,
            Some("5"),
            "Time to click the button before being timed out",
        );
    }

    /// Build a table from stored rows.  Rows repeating a section and
    /// key that an earlier row already carries are dropped, so the
    /// table is well-formed whatever the rows hold.
    pub fn load(rows: Vec<ConfigEntry>) -> (r: Config)
        ensures
            r.wf(),
            forall|a: Seq<char>, b: Seq<char>|
                #[trigger] has_entry(r@, a, b) == has_entry(rows.deep_view(), a, b),
            forall|i: int|
                0 <= i < r@.len() ==> rows.deep_view().contains(#[trigger] r@[i]),
    {
        let mut r = Config::new();
        let mut i: usize = 0;
        let mut rest = rows;
        proof {
            assert(rest.deep_view().take(0) =~= Seq::<ConfigEntryView>::empty());
        }
        let n = rest.len();
        while i < n
            invariant
                n == rest@.len(),
                i <= n,
                rest.deep_view().len() == rest@.len(),
                forall|q: int|
                    0 <= q < rest@.len() ==> #[trigger] rest.deep_view()[q] == rest@[q]@,
                r.wf(),
                forall|a: Seq<char>, b: Seq<char>|
                    #[trigger] has_entry(r@, a, b) == has_entry(
                        rest.deep_view().take(i as int),
                        a,
                        b,
                    ),
                forall|q: int|
                    0 <= q < r@.len() ==> rest.deep_view().take(i as int).contains(
                        #[trigger] r@[q],
                    ),
            decreases n - i,
        {
            let ghost pre = r@;
            let ghost taken = rest.deep_view().take(i as int);
            let ghost taken1 = rest.deep_view().take(i as int + 1);
            let row = rest[i].clone_entry();
            let ghost rv = row@;
            let inserted = r.insert(row);
            proof {
                assert(taken1.drop_last() =~= taken);
                assert(taken1.last() == rest.deep_view()[i as int]);
                assert(rv == rest.deep_view()[i as int]);
                assert forall|a: Seq<char>, b: Seq<char>|
                    #[trigger] has_entry(r@, a, b) == has_entry(taken1, a, b) by {
                    if has_entry(r@, a, b) {
                        let w = choose|w: int|
                            0 <= w < r@.len() && (#[trigger] r@[w]).section == a && r@[w].key == b;
                        if w < pre.len() {
                            assert(pre[w] == r@[w]);
                            assert(has_entry(pre, a, b));
                            let v = choose|v: int|
                                0 <= v < taken.len() && (#[trigger] taken[v]).section == a
                                    && taken[v].key == b;
                            assert(taken1[v] == taken[v]);
                            assert(has_entry(taken1, a, b));
                        } else {
                            assert(r@[w] == rv);
                            assert(taken1[taken1.len() - 1] == rv);
                            assert(has_entry(taken1, a, b));
                        }
                    }
                    if has_entry(taken1, a, b) {
                        let v = choose|v: int|
                            0 <= v < taken1.len() && (#[trigger] taken1[v]).section == a
                                && taken1[v].key == b;
                        if v < taken.len() {
                            assert(taken[v] == taken1[v]);
                            assert(has_entry(taken, a, b));
                            assert(has_entry(pre, a, b));
                            if inserted {
                                let w = choose|w: int|
                                    0 <= w < pre.len() && (#[trigger] pre[w]).section == a
                                        && pre[w].key == b;
                                assert(r@[w] == pre[w]);
                                assert(has_entry(r@, a, b));
                            }
                        } else {
                            assert(taken1[v] == rv);
                            assert(has_entry(r@, rv.section, rv.key));
                        }
                    }
                }
                assert forall|q: int|
                    0 <= q < r@.len() implies taken1.contains(#[trigger] r@[q]) by {
                    if q < pre.len() {
                        assert(r@[q] == pre[q]);
                        assert(taken.contains(pre[q]));
                        let v = choose|v: int| 0 <= v < taken.len() && taken[v] == pre[q];
                        assert(taken1[v] == taken[v]);
                    } else {
                        assert(r@[q] == rv);
                        assert(taken1[taken1.len() - 1] == rv);
                    }
                }
            }
            i += 1;
        }
        proof {
            assert(rest.deep_view().take(n as int) =~= rest.deep_view());
            assert(rest@ == rows@);
            assert forall|q: int|
                0 <= q < rest@.len() implies #[trigger] rows.deep_view()[q]
                == rest.deep_view()[q] by {}
            assert(rows.deep_view() =~= rest.deep_view());
        }
        r
    }
}

impl ConfigEntry {
    /// A field-for-field copy.
    pub fn clone_entry(&self) -> (r: ConfigEntry)
        ensures
            r@ == self@,
    {
        ConfigEntry {
            section: clone_string(&self.section),
            key: clone_string(&self.key),
            value_type: self.value_type,
            description: clone_string(&self.description),
            value: match self.value {
                Some(ref v) => Some(clone_string(v)),
                None => None,
            },
        }
    }
}

} // verus!
