use vstd::prelude::*;
use crate::decimal::{decimal, decimal_string, digit_char};

verus! {

/// Default cache window: images kept on each side of the current one.
pub const CACHE_SIZE: usize = 5;
/// Default limit of waiting load operations per pane.
pub const MAX_LOADING_QUEUE_SIZE: usize = 3;
/// Default limit of in-flight load operations per pane.
pub const MAX_BEING_LOADED_QUEUE_SIZE: usize = 3;

/// Built-in defaults of the viewer.
pub struct Config {
    pub cache_size: usize,
    pub max_loading_queue_size: usize,
    pub max_being_loaded_queue_size: usize,
    pub window_width: u32,
    pub window_height: u32,
    pub atlas_size: u32,
    pub double_click_threshold_ms: u16,
    pub archive_cache_size: u64,
}

impl Config {
    /// The built-in defaults.
    pub fn defaults() -> (r: Self)
        ensures
            r.cache_size == CACHE_SIZE,
            r.max_loading_queue_size == MAX_LOADING_QUEUE_SIZE,
            r.max_being_loaded_queue_size == MAX_BEING_LOADED_QUEUE_SIZE,
            r.window_width == 1200,
            r.window_height == 800,
            r.atlas_size == 2048,
            r.double_click_threshold_ms == 250,
            r.archive_cache_size == 209_715_200,
    {
        Config {
            cache_size: CACHE_SIZE,
            max_loading_queue_size: MAX_LOADING_QUEUE_SIZE,
            max_being_loaded_queue_size: MAX_BEING_LOADED_QUEUE_SIZE,
            window_width: 1200,
            window_height: 800,
            atlas_size: 2048,
            double_click_threshold_ms: 250,
            archive_cache_size: 209_715_200,
        }
    }
}

/// Settings as the user saved them.
#[derive(Debug, Clone)]
pub struct UserSettings {
    pub mouse_wheel_zoom: bool,
    pub show_copy_buttons: bool,
    pub show_metadata: bool,
    pub cache_size: usize,
    pub max_loading_queue_size: usize,
    pub max_being_loaded_queue_size: usize,
    pub window_width: u32,
    pub window_height: u32,
    pub atlas_size: u32,
    pub double_click_threshold_ms: u16,
    /// Archive cache size in megabytes.
    pub archive_cache_size: u64,
    pub archive_warning_threshold_mb: u64,
}

/// Settings that take effect without a restart.
#[derive(Debug, Clone)]
pub struct RuntimeSettings {
    pub mouse_wheel_zoom: bool,
    pub show_copy_buttons: bool,
    pub show_metadata: bool,
    pub cache_size: usize,
    /// Archive cache size in bytes.
    pub archive_cache_size: u64,
    pub archive_warning_threshold_mb: u64,
    pub max_loading_queue_size: usize,
    pub max_being_loaded_queue_size: usize,
    pub double_click_threshold_ms: u16,
}

/// The runtime part of the user's settings, the archive cache size turned from megabytes
/// into bytes.
pub open spec fn runtime_of(settings: UserSettings) -> RuntimeSettings {
    RuntimeSettings {
        mouse_wheel_zoom: settings.mouse_wheel_zoom,
        show_copy_buttons: settings.show_copy_buttons,
        show_metadata: settings.show_metadata,
        cache_size: settings.cache_size,
        archive_cache_size: (settings.archive_cache_size * 1_048_576) as u64,
        archive_warning_threshold_mb: settings.archive_warning_threshold_mb,
        max_loading_queue_size: settings.max_loading_queue_size,
        max_being_loaded_queue_size: settings.max_being_loaded_queue_size,
        double_click_threshold_ms: settings.double_click_threshold_ms,
    }
}

impl RuntimeSettings {
    /// The runtime part of the user's settings, with the archive cache size turned from
    /// megabytes into bytes.
    pub fn from_user_settings(settings: &UserSettings) -> (r: Self)
        requires
            settings.archive_cache_size * 1_048_576 <= u64::MAX,
        ensures
            r == runtime_of(*settings),
            r.archive_cache_size == settings.archive_cache_size * 1_048_576,
    {
        RuntimeSettings {
            mouse_wheel_zoom: settings.mouse_wheel_zoom,
            show_copy_buttons: settings.show_copy_buttons,
            show_metadata: settings.show_metadata,
            cache_size: settings.cache_size,
            archive_cache_size: settings.archive_cache_size * 1_048_576,
            archive_warning_threshold_mb: settings.archive_warning_threshold_mb,
            max_loading_queue_size: settings.max_loading_queue_size,
            max_being_loaded_queue_size: settings.max_being_loaded_queue_size,
            double_click_threshold_ms: settings.double_click_threshold_ms,
        }
    }
}

/// No two entries share a key.
pub open spec fn keys_unique(s: Seq<(String, String)>) -> bool {
    forall|i: int, j: int| 0 <= i < s.len() && 0 <= j < s.len() && i != j ==> (#[trigger] s[i]).0@ != (#[trigger] s[j]).0@
}

/// The value stored under a key, if any.
pub open spec fn input_value(s: Seq<(String, String)>, key: Seq<char>) -> Option<Seq<char>> {
    if exists|i: int| 0 <= i < s.len() && (#[trigger] s[i]).0@ == key {
        Some(s[choose|i: int| 0 <= i < s.len() && (#[trigger] s[i]).0@ == key].1@)
    } else {
        None
    }
}

proof fn lemma_input_value_at(s: Seq<(String, String)>, i: int)
    requires
        keys_unique(s),
        0 <= i < s.len(),
    ensures
        input_value(s, s[i].0@) == Some(s[i].1@),
{
    let key = s[i].0@;
    assert(exists|j: int| 0 <= j < s.len() && (#[trigger] s[j]).0@ == key);
    let c = choose|j: int| 0 <= j < s.len() && (#[trigger] s[j]).0@ == key;
    if c != i {
        assert(s[c].0@ != s[i].0@);
    }
}

/// The state of the settings dialog.
pub struct SettingsWidget {
    pub show_options: bool,
    pub save_status: Option<String>,
    pub active_tab: usize,
    /// Text typed for each advanced setting, one entry per key.
    pub advanced_input: Vec<(String, String)>,
    pub runtime_settings: RuntimeSettings,
}

fn push_input(v: &mut Vec<(String, String)>, key: &str, value: String)
    ensures
        final(v)@.len() == old(v)@.len() + 1,
        forall|i: int| 0 <= i < old(v)@.len() ==> #[trigger] final(v)@[i] == old(v)@[i],
        final(v)@.last().0@ == key@,
        final(v)@.last().1@ == value@,
{
    v.push((String::from_str(key), value));
}

impl SettingsWidget {
    /// A hidden dialog on the first tab, with each advanced setting's text set to its
    /// current value written in decimal, and the runtime settings taken from `settings`.
    pub fn new(settings: &UserSettings) -> (r: Self)
        requires
            settings.archive_cache_size * 1_048_576 <= u64::MAX,
        ensures
            !r.show_options,
            r.save_status is None,
            r.active_tab == 0,
            keys_unique(r.advanced_input@),
            r.advanced_input@.len() == 9,
            input_value(r.advanced_input@, "cache_size"@) == Some(decimal(settings.cache_size as nat)),
            input_value(r.advanced_input@, "max_loading_queue_size"@) == Some(decimal(settings.max_loading_queue_size as nat)),
            input_value(r.advanced_input@, "max_being_loaded_queue_size"@) == Some(decimal(settings.max_being_loaded_queue_size as nat)),
            input_value(r.advanced_input@, "window_width"@) == Some(decimal(settings.window_width as nat)),
            input_value(r.advanced_input@, "window_height"@) == Some(decimal(settings.window_height as nat)),
            input_value(r.advanced_input@, "atlas_size"@) == Some(decimal(settings.atlas_size as nat)),
            input_value(r.advanced_input@, "double_click_threshold_ms"@) == Some(decimal(settings.double_click_threshold_ms as nat)),
            input_value(r.advanced_input@, "archive_cache_size"@) == Some(decimal(settings.archive_cache_size as nat)),
            input_value(r.advanced_input@, "archive_warning_threshold_mb"@) == Some(decimal(settings.archive_warning_threshold_mb as nat)),
            r.runtime_settings == runtime_of(*settings),
    {
        let mut v: Vec<(String, String)> = Vec::new();
        push_input(&mut v, "cache_size", decimal_string(settings.cache_size as u64));
        push_input(&mut v, "max_loading_queue_size", decimal_string(settings.max_loading_queue_size as u64));
        push_input(&mut v, "max_being_loaded_queue_size", decimal_string(settings.max_being_loaded_queue_size as u64));
        push_input(&mut v, "window_width", decimal_string(settings.window_width as u64));
        push_input(&mut v, "window_height", decimal_string(settings.window_height as u64));
        push_input(&mut v, "atlas_size", decimal_string(settings.atlas_size as u64));
        push_input(&mut v, "double_click_threshold_ms", decimal_string(settings.double_click_threshold_ms as u64));
        push_input(&mut v, "archive_cache_size", decimal_string(settings.archive_cache_size));
        push_input(&mut v, "archive_warning_threshold_mb", decimal_string(settings.archive_warning_threshold_mb));
        proof {
            reveal_strlit("cache_size");
            reveal_strlit("max_loading_queue_size");
            reveal_strlit("max_being_loaded_queue_size");
            reveal_strlit("window_width");
            reveal_strlit("window_height");
            reveal_strlit("atlas_size");
            reveal_strlit("double_click_threshold_ms");
            reveal_strlit("archive_cache_size");
            reveal_strlit("archive_warning_threshold_mb");
            let s = v@;
            assert forall|i: int, j: int| 0 <= i < s.len() && 0 <= j < s.len() && i != j
                implies (#[trigger] s[i]).0@ != (#[trigger] s[j]).0@ by {
                if s[i].0@.len() == s[j].0@.len() {
                    assert(s[i].0@[0] != s[j].0@[0] || s[i].0@[1] != s[j].0@[1] || s[i].0@[4] != s[j].0@[4]
                        || s[i].0@[8] != s[j].0@[8] || s[i].0@[13] != s[j].0@[13]
                        || s[i].0@[s[i].0@.len() - 1] != s[j].0@[s[j].0@.len() - 1]);
                }
            }
            lemma_input_value_at(s, 0);
            lemma_input_value_at(s, 1);
            lemma_input_value_at(s, 2);
            lemma_input_value_at(s, 3);
            lemma_input_value_at(s, 4);
            lemma_input_value_at(s, 5);
            lemma_input_value_at(s, 6);
            lemma_input_value_at(s, 7);
            lemma_input_value_at(s, 8);
        }
        SettingsWidget {
            show_options: false,
            save_status: None,
            active_tab: 0,
            advanced_input: v,
            runtime_settings: RuntimeSettings::from_user_settings(settings),
        }
    }
}

impl SettingsWidget {
    pub fn show(&mut self)
        ensures
            final(self).show_options,
            final(self).save_status == old(self).save_status,
            final(self).active_tab == old(self).active_tab,
            final(self).advanced_input@ == old(self).advanced_input@,
            final(self).runtime_settings == old(self).runtime_settings,
    {
        self.show_options = true;
    }

    pub fn hide_settings(&mut self)
        ensures
            !final(self).show_options,
            final(self).save_status == old(self).save_status,
            final(self).active_tab == old(self).active_tab,
            final(self).advanced_input@ == old(self).advanced_input@,
            final(self).runtime_settings == old(self).runtime_settings,
    {
        self.show_options = false;
    }

    pub fn set_save_status(&mut self, status: Option<String>)
        ensures
            final(self).save_status == status,
            final(self).show_options == old(self).show_options,
            final(self).active_tab == old(self).active_tab,
            final(self).advanced_input@ == old(self).advanced_input@,
            final(self).runtime_settings == old(self).runtime_settings,
    {
        self.save_status = status;
    }

    pub fn clear_save_status(&mut self)
        ensures
            final(self).save_status is None,
            final(self).show_options == old(self).show_options,
            final(self).active_tab == old(self).active_tab,
            final(self).advanced_input@ == old(self).advanced_input@,
            final(self).runtime_settings == old(self).runtime_settings,
    {
        self.save_status = None;
    }

    pub fn set_active_tab(&mut self, tab: usize)
        ensures
            final(self).active_tab == tab,
            final(self).show_options == old(self).show_options,
            final(self).save_status == old(self).save_status,
            final(self).advanced_input@ == old(self).advanced_input@,
            final(self).runtime_settings == old(self).runtime_settings,
    {
        self.active_tab = tab;
    }

    /// Stores the text typed for a setting, replacing any earlier text for the same key.
    pub fn set_advanced_input(&mut self, key: String, value: String)
        requires
            keys_unique(old(self).advanced_input@),
        ensures
            keys_unique(final(self).advanced_input@),
            input_value(final(self).advanced_input@, key@) == Some(value@),
            forall|k: Seq<char>| k != key@ ==> #[trigger] input_value(final(self).advanced_input@, k)
                == input_value(old(self).advanced_input@, k),
            final(self).show_options == old(self).show_options,
            final(self).save_status == old(self).save_status,
            final(self).active_tab == old(self).active_tab,
            final(self).runtime_settings == old(self).runtime_settings,
    {
        let ghost old_s = self.advanced_input@;
        let mut i: usize = 0;
        while i < self.advanced_input.len()
            invariant
                self.advanced_input@ == old_s,
                old_s == old(self).advanced_input@,
                keys_unique(old_s),
                self.show_options == old(self).show_options,
                self.save_status == old(self).save_status,
                self.active_tab == old(self).active_tab,
                self.runtime_settings == old(self).runtime_settings,
                i <= old_s.len(),
                forall|j: int| 0 <= j < i ==> (#[trigger] old_s[j]).0@ != key@,
            decreases old_s.len() - i,
        {
            if self.advanced_input[i].0 == key {
                let ghost idx = i as int;
                assert(old_s[idx].0@ == key@);
                self.advanced_input.set(i, (key, value));
                proof {
                    let s = self.advanced_input@;
                    assert forall|a: int, b: int| 0 <= a < s.len() && 0 <= b < s.len() && a != b
                        implies (#[trigger] s[a]).0@ != (#[trigger] s[b]).0@ by {
                        assert(old_s[a].0@ == s[a].0@);
                        assert(old_s[b].0@ == s[b].0@);
                    }
                    lemma_input_value_at(s, idx);
                    assert forall|k: Seq<char>| k != key@ implies #[trigger] input_value(s, k)
                        == input_value(old_s, k) by {
                        if exists|j: int| 0 <= j < old_s.len() && (#[trigger] old_s[j]).0@ == k {
                            let j = choose|j: int| 0 <= j < old_s.len() && (#[trigger] old_s[j]).0@ == k;
                            lemma_input_value_at(old_s, j);
                            lemma_input_value_at(s, j);
                        } else {
                            assert forall|j: int| 0 <= j < s.len() implies (#[trigger] s[j]).0@ != k by {
                                assert(old_s[j].0@ == s[j].0@);
                            }
                        }
                    }
                }
                return;
            }
            i += 1;
        }
        self.advanced_input.push((key, value));
        proof {
            let s = self.advanced_input@;
            let n = old_s.len() as int;
            assert forall|a: int, b: int| 0 <= a < s.len() && 0 <= b < s.len() && a != b
                implies (#[trigger] s[a]).0@ != (#[trigger] s[b]).0@ by {
                if a < n && b < n {
                    assert(old_s[a] == s[a] && old_s[b] == s[b]);
                } else if a == n {
                    assert(old_s[b] == s[b]);
                } else {
                    assert(old_s[a] == s[a]);
                }
            }
            lemma_input_value_at(s, n);
            assert forall|k: Seq<char>| k != key@ implies #[trigger] input_value(s, k)
                == input_value(old_s, k) by {
                if exists|j: int| 0 <= j < old_s.len() && (#[trigger] old_s[j]).0@ == k {
                    let j = choose|j: int| 0 <= j < old_s.len() && (#[trigger] old_s[j]).0@ == k;
                    lemma_input_value_at(old_s, j);
                    assert(s[j] == old_s[j]);
                    lemma_input_value_at(s, j);
                } else {
                    assert forall|j: int| 0 <= j < s.len() implies (#[trigger] s[j]).0@ != k by {
                        if j < n {
                            assert(old_s[j] == s[j]);
                        }
                    }
                }
            }
        }
    }

    pub fn is_visible(&self) -> (r: bool)
        ensures
            r == self.show_options,
    {
        self.show_options
    }
}


/// A decimal digit.
pub open spec fn is_digit(c: char) -> bool {
    '0' <= c && c <= '9'
}

/// The value of a string of decimal digits, most significant first.
pub open spec fn digits_value(s: Seq<char>) -> nat
    decreases s.len(),
{
    if s.len() == 0 {
        0
    } else {
        digits_value(s.drop_last()) * 10 + ((s.last() as int - '0' as int) as nat)
    }
}

/// What `str::parse::<u64>` gives, as its documentation states it: an optional `+` followed
/// by one or more decimal digits whose value fits in `u64`; anything else is an error.
pub open spec fn parsed_u64(s: Seq<char>) -> Option<u64> {
    let d = if s.len() > 0 && s[0] == '+' { s.drop_first() } else { s };
    if d.len() > 0 && (forall|i: int| 0 <= i < d.len() ==> is_digit(#[trigger] d[i]))
        && digits_value(d) <= u64::MAX {
        Some(digits_value(d) as u64)
    } else {
        None
    }
}

/// Calls `str::parse::<u64>`; its documentation gives the result as `parsed_u64`.
#[verifier::external_body]
fn parse_u64(s: &str) -> (r: Option<u64>)
    ensures
        r == parsed_u64(s@),
{
    s.parse::<u64>().ok()
}

/// A power of two (1, 2, 4, ...).
pub open spec fn is_power_of_two(n: nat) -> bool
    decreases n,
{
    if n == 0 {
        false
    } else if n == 1 {
        true
    } else {
        n % 2 == 0 && is_power_of_two(n / 2)
    }
}

fn power_of_two(n: u64) -> (r: bool)
    ensures
        r == is_power_of_two(n as nat),
{
    let mut m = n;
    while m > 1 && m % 2 == 0
        invariant
            is_power_of_two(n as nat) == is_power_of_two(m as nat),
        decreases m,
    {
        m = m / 2;
    }
    m == 1
}

/// Why the text of a numeric setting was refused.
#[derive(Debug, Clone, Copy, PartialEq, Eq, Structural)]
pub enum FieldError {
    /// No text was stored for the setting.
    Missing,
    /// The text is not a number.
    Invalid,
    /// The number lies outside the allowed range.
    OutOfRange,
}

/// The number lies in `lo..=hi` and, where asked, is a power of two.
pub open spec fn in_bounds(v: u64, lo: u64, hi: u64, pow2: bool) -> bool {
    lo <= v <= hi && (pow2 ==> is_power_of_two(v as nat))
}

/// The value of one setting taken from the typed texts, or why it is refused.
pub open spec fn field_outcome(inputs: Seq<(String, String)>, key: Seq<char>, lo: u64, hi: u64, pow2: bool)
    -> Result<u64, FieldError> {
    match input_value(inputs, key) {
        None => Err(FieldError::Missing),
        Some(text) => match parsed_u64(text) {
            None => Err(FieldError::Invalid),
            Some(v) => if in_bounds(v, lo, hi, pow2) {
                Ok(v)
            } else {
                Err(FieldError::OutOfRange)
            },
        },
    }
}

/// The status line shown for a refused setting.
pub open spec fn field_message(key: Seq<char>, e: FieldError, range_message: Seq<char>) -> Seq<char> {
    match e {
        FieldError::Missing => "Error parsing "@ + key + ": Missing value for "@ + key,
        FieldError::Invalid => "Error parsing "@ + key + ": Invalid number for "@ + key,
        FieldError::OutOfRange => range_message,
    }
}

/// The outcome of one setting with its status line.
pub open spec fn checked_field(inputs: Seq<(String, String)>, key: Seq<char>, lo: u64, hi: u64, pow2: bool,
    range_message: Seq<char>) -> Result<u64, Seq<char>> {
    match field_outcome(inputs, key, lo, hi, pow2) {
        Ok(v) => Ok(v),
        Err(e) => Err(field_message(key, e, range_message)),
    }
}

fn lookup_input<'a>(inputs: &'a Vec<(String, String)>, key: &str) -> (r: Option<&'a String>)
    requires
        keys_unique(inputs@),
    ensures
        match r {
            Some(v) => input_value(inputs@, key@) == Some(v@),
            None => input_value(inputs@, key@) is None,
        },
{
    let wanted = String::from_str(key);
    let mut i: usize = 0;
    while i < inputs.len()
        invariant
            i <= inputs@.len(),
            keys_unique(inputs@),
            wanted@ == key@,
            forall|k: int| 0 <= k < i ==> (#[trigger] inputs@[k]).0@ != key@,
        decreases inputs@.len() - i,
    {
        if inputs[i].0 == wanted {
            proof {
                lemma_input_value_at(inputs@, i as int);
            }
            return Some(&inputs[i].1);
        }
        i += 1;
    }
    None
}

fn check_field(inputs: &Vec<(String, String)>, key: &str, lo: u64, hi: u64, pow2: bool, range_message: &str)
    -> (r: Result<u64, String>)
    requires
        keys_unique(inputs@),
    ensures
        match r {
            Ok(v) => checked_field(inputs@, key@, lo, hi, pow2, range_message@) == Ok::<u64, Seq<char>>(v),
            Err(m) => checked_field(inputs@, key@, lo, hi, pow2, range_message@) == Err::<u64, Seq<char>>(m@),
        },
{
    match lookup_input(inputs, key) {
        None => {
            let mut m = String::from_str("Error parsing ");
            m.append(key);
            m.append(": Missing value for ");
            m.append(key);
            Err(m)
        },
        Some(text) => match parse_u64(text.as_str()) {
            None => {
                let mut m = String::from_str("Error parsing ");
                m.append(key);
                m.append(": Invalid number for ");
                m.append(key);
                Err(m)
            },
            Some(v) => {
                if lo <= v && v <= hi && (!pow2 || power_of_two(v)) {
                    Ok(v)
                } else {
                    Err(String::from_str(range_message))
                }
            },
        },
    }
}

/// The numeric settings of the advanced tab, checked.
#[derive(Debug, Clone, Copy, PartialEq, Eq, Structural)]
pub struct AdvancedSettings {
    pub cache_size: usize,
    pub max_loading_queue_size: usize,
    pub max_being_loaded_queue_size: usize,
    pub window_width: u32,
    pub window_height: u32,
    pub atlas_size: u32,
    pub double_click_threshold_ms: u16,
    /// In megabytes.
    pub archive_cache_size: u64,
    pub archive_warning_threshold_mb: u64,
}

/// The advanced settings read from the typed texts, each checked against its range in the
/// order of the dialog; the first refused one gives the status line.
pub open spec fn advanced_settings_of(inputs: Seq<(String, String)>) -> Result<AdvancedSettings, Seq<char>> {
    let f1 = checked_field(inputs, "cache_size"@, 1, 100, false,
        "Error: Cache size must be between 1 and 100"@);
    let f2 = checked_field(inputs, "max_loading_queue_size"@, 1, 50, false,
        "Error: Max loading queue size must be between 1 and 50"@);
    let f3 = checked_field(inputs, "max_being_loaded_queue_size"@, 1, 50, false,
        "Error: Max being loaded queue size must be between 1 and 50"@);
    let f4 = checked_field(inputs, "window_width"@, 400, 10000, false,
        "Error: Window width must be between 400 and 10000"@);
    let f5 = checked_field(inputs, "window_height"@, 300, 10000, false,
        "Error: Window height must be between 300 and 10000"@);
    let f6 = checked_field(inputs, "atlas_size"@, 256, 8192, true,
        "Error: Atlas size must be a power of 2 between 256 and 8192"@);
    let f7 = checked_field(inputs, "double_click_threshold_ms"@, 50, 1000, false,
        "Error: Double-click threshold must be between 50 and 1000 ms"@);
    let f8 = checked_field(inputs, "archive_cache_size"@, 10, 10000, false,
        "Error: Archive cache size must be between 10 and 10000 MB"@);
    let f9 = checked_field(inputs, "archive_warning_threshold_mb"@, 10, 10000, false,
        "Error: Archive warning threshold must be between 10 and 10000 MB"@);
    if let Err(m) = f1 { Err(m) }
    else if let Err(m) = f2 { Err(m) }
    else if let Err(m) = f3 { Err(m) }
    else if let Err(m) = f4 { Err(m) }
    else if let Err(m) = f5 { Err(m) }
    else if let Err(m) = f6 { Err(m) }
    else if let Err(m) = f7 { Err(m) }
    else if let Err(m) = f8 { Err(m) }
    else if let Err(m) = f9 { Err(m) }
    else {
        Ok(AdvancedSettings {
            cache_size: f1->Ok_0 as usize,
            max_loading_queue_size: f2->Ok_0 as usize,
            max_being_loaded_queue_size: f3->Ok_0 as usize,
            window_width: f4->Ok_0 as u32,
            window_height: f5->Ok_0 as u32,
            atlas_size: f6->Ok_0 as u32,
            double_click_threshold_ms: f7->Ok_0 as u16,
            archive_cache_size: f8->Ok_0,
            archive_warning_threshold_mb: f9->Ok_0,
        })
    }
}

impl SettingsWidget {
    /// Reads and checks the numeric settings typed in the advanced tab. A refused setting
    /// gives the status line to show.
    pub fn parse_advanced_settings(&self) -> (r: Result<AdvancedSettings, String>)
        requires
            keys_unique(self.advanced_input@),
        ensures
            match r {
                Ok(a) => advanced_settings_of(self.advanced_input@) == Ok::<AdvancedSettings, Seq<char>>(a),
                Err(m) => advanced_settings_of(self.advanced_input@) == Err::<AdvancedSettings, Seq<char>>(m@),
            },
    {
        let inputs = &self.advanced_input;
        let cache_size = match check_field(inputs, "cache_size", 1, 100, false,
            "Error: Cache size must be between 1 and 100") {
            Ok(v) => v,
            Err(m) => return Err(m),
        };
        let max_loading_queue_size = match check_field(inputs, "max_loading_queue_size", 1, 50, false,
            "Error: Max loading queue size must be between 1 and 50") {
            Ok(v) => v,
            Err(m) => return Err(m),
        };
        let max_being_loaded_queue_size = match check_field(inputs, "max_being_loaded_queue_size", 1, 50, false,
            "Error: Max being loaded queue size must be between 1 and 50") {
            Ok(v) => v,
            Err(m) => return Err(m),
        };
        let window_width = match check_field(inputs, "window_width", 400, 10000, false,
            "Error: Window width must be between 400 and 10000") {
            Ok(v) => v,
            Err(m) => return Err(m),
        };
        let window_height = match check_field(inputs, "window_height", 300, 10000, false,
            "Error: Window height must be between 300 and 10000") {
            Ok(v) => v,
            Err(m) => return Err(m),
        };
        let atlas_size = match check_field(inputs, "atlas_size", 256, 8192, true,
            "Error: Atlas size must be a power of 2 between 256 and 8192") {
            Ok(v) => v,
            Err(m) => return Err(m),
        };
        let double_click_threshold_ms = match check_field(inputs, "double_click_threshold_ms", 50, 1000, false,
            "Error: Double-click threshold must be between 50 and 1000 ms") {
            Ok(v) => v,
            Err(m) => return Err(m),
        };
        let archive_cache_size = match check_field(inputs, "archive_cache_size", 10, 10000, false,
            "Error: Archive cache size must be between 10 and 10000 MB") {
            Ok(v) => v,
            Err(m) => return Err(m),
        };
        let archive_warning_threshold_mb = match check_field(inputs, "archive_warning_threshold_mb", 10, 10000, false,
            "Error: Archive warning threshold must be between 10 and 10000 MB") {
            Ok(v) => v,
            Err(m) => return Err(m),
        };
        Ok(AdvancedSettings {
            cache_size: cache_size as usize,
            max_loading_queue_size: max_loading_queue_size as usize,
            max_being_loaded_queue_size: max_being_loaded_queue_size as usize,
            window_width: window_width as u32,
            window_height: window_height as u32,
            atlas_size: atlas_size as u32,
            double_click_threshold_ms: double_click_threshold_ms as u16,
            archive_cache_size,
            archive_warning_threshold_mb,
        })
    }
}

impl AdvancedSettings {
    /// Whether the window or atlas size differs from the saved settings; those take effect
    /// only after a restart.
    pub fn window_settings_changed(&self, saved: &UserSettings) -> (r: bool)
        ensures
            r == (self.window_width != saved.window_width || self.window_height != saved.window_height
                || self.atlas_size != saved.atlas_size),
    {
        self.window_width != saved.window_width || self.window_height != saved.window_height
            || self.atlas_size != saved.atlas_size
    }
}

/// The runtime settings once saved advanced settings are applied: the cache size, both
/// queue limits, the double-click threshold and the archive warning threshold taken over,
/// and the archive cache size turned from megabytes into bytes; the display flags kept.
pub open spec fn applied(old_settings: RuntimeSettings, a: AdvancedSettings) -> RuntimeSettings {
    RuntimeSettings {
        cache_size: a.cache_size,
        archive_cache_size: (a.archive_cache_size * 1_048_576) as u64,
        archive_warning_threshold_mb: a.archive_warning_threshold_mb,
        max_loading_queue_size: a.max_loading_queue_size,
        max_being_loaded_queue_size: a.max_being_loaded_queue_size,
        double_click_threshold_ms: a.double_click_threshold_ms,
        ..old_settings
    }
}

/// Applies saved advanced settings to the running viewer, as `applied` states; returns
/// whether the cache size changed, in which case the panes with a folder open are reopened.
pub fn apply_advanced_settings(runtime: &mut RuntimeSettings, a: &AdvancedSettings) -> (r: bool)
    requires
        a.archive_cache_size * 1_048_576 <= u64::MAX,
    ensures
        r == (a.cache_size != old(runtime).cache_size),
        *final(runtime) == applied(*old(runtime), *a),
{
    runtime.archive_cache_size = a.archive_cache_size * 1_048_576;
    runtime.archive_warning_threshold_mb = a.archive_warning_threshold_mb;
    let cache_changed = a.cache_size != runtime.cache_size;
    if cache_changed {
        runtime.cache_size = a.cache_size;
    }
    if a.max_loading_queue_size != runtime.max_loading_queue_size
        || a.max_being_loaded_queue_size != runtime.max_being_loaded_queue_size {
        runtime.max_loading_queue_size = a.max_loading_queue_size;
        runtime.max_being_loaded_queue_size = a.max_being_loaded_queue_size;
    }
    if a.double_click_threshold_ms != runtime.double_click_threshold_ms {
        runtime.double_click_threshold_ms = a.double_click_threshold_ms;
    }
    cache_changed
}

/// The status line shown once the settings are saved.
pub fn saved_status_message(window_settings_changed: bool) -> (r: String)
    ensures
        r@ == if window_settings_changed {
            "Settings saved! Window settings require restart, other changes applied immediately."@
        } else {
            "Settings saved! All changes applied immediately."@
        },
{
    if window_settings_changed {
        String::from_str("Settings saved! Window settings require restart, other changes applied immediately.")
    } else {
        String::from_str("Settings saved! All changes applied immediately.")
    }
}

/// Default archive cache size, in megabytes.
pub const DEFAULT_ARCHIVE_CACHE_SIZE_MB: u64 = 200;
/// Default size above which opening an archive warns, in megabytes.
pub const DEFAULT_ARCHIVE_WARNING_THRESHOLD_MB: u64 = 500;

impl SettingsWidget {
    /// Puts the built-in default back into the text of each advanced setting.
    pub fn reset_advanced_inputs(&mut self)
        requires
            keys_unique(old(self).advanced_input@),
        ensures
            keys_unique(final(self).advanced_input@),
            input_value(final(self).advanced_input@, "cache_size"@) == Some(decimal(CACHE_SIZE as nat)),
            input_value(final(self).advanced_input@, "max_loading_queue_size"@) == Some(decimal(MAX_LOADING_QUEUE_SIZE as nat)),
            input_value(final(self).advanced_input@, "max_being_loaded_queue_size"@) == Some(decimal(MAX_BEING_LOADED_QUEUE_SIZE as nat)),
            input_value(final(self).advanced_input@, "window_width"@) == Some(decimal(1200)),
            input_value(final(self).advanced_input@, "window_height"@) == Some(decimal(800)),
            input_value(final(self).advanced_input@, "atlas_size"@) == Some(decimal(2048)),
            input_value(final(self).advanced_input@, "double_click_threshold_ms"@) == Some(decimal(250)),
            input_value(final(self).advanced_input@, "archive_cache_size"@) == Some(decimal(DEFAULT_ARCHIVE_CACHE_SIZE_MB as nat)),
            input_value(final(self).advanced_input@, "archive_warning_threshold_mb"@) == Some(decimal(DEFAULT_ARCHIVE_WARNING_THRESHOLD_MB as nat)),
            final(self).show_options == old(self).show_options,
            final(self).save_status == old(self).save_status,
            final(self).active_tab == old(self).active_tab,
            final(self).runtime_settings == old(self).runtime_settings,
    {
        proof {
            reveal_strlit("cache_size");
            reveal_strlit("max_loading_queue_size");
            reveal_strlit("max_being_loaded_queue_size");
            reveal_strlit("window_width");
            reveal_strlit("window_height");
            reveal_strlit("atlas_size");
            reveal_strlit("double_click_threshold_ms");
            reveal_strlit("archive_cache_size");
            reveal_strlit("archive_warning_threshold_mb");
            assert("cache_size"@.len() == 10 && "atlas_size"@.len() == 10);
            assert("cache_size"@[0] != "atlas_size"@[0]);
            assert("max_loading_queue_size"@.len() == 22);
            assert("max_being_loaded_queue_size"@.len() == 27);
            assert("window_width"@.len() == 12);
            assert("window_height"@.len() == 13);
            assert("double_click_threshold_ms"@.len() == 25);
            assert("archive_cache_size"@.len() == 18);
            assert("archive_warning_threshold_mb"@.len() == 28);
        }
        self.set_advanced_input(String::from_str("cache_size"), decimal_string(CACHE_SIZE as u64));
        self.set_advanced_input(String::from_str("max_loading_queue_size"), decimal_string(MAX_LOADING_QUEUE_SIZE as u64));
        self.set_advanced_input(String::from_str("max_being_loaded_queue_size"), decimal_string(MAX_BEING_LOADED_QUEUE_SIZE as u64));
        self.set_advanced_input(String::from_str("window_width"), decimal_string(1200));
        self.set_advanced_input(String::from_str("window_height"), decimal_string(800));
        self.set_advanced_input(String::from_str("atlas_size"), decimal_string(2048));
        self.set_advanced_input(String::from_str("double_click_threshold_ms"), decimal_string(250));
        self.set_advanced_input(String::from_str("archive_cache_size"), decimal_string(DEFAULT_ARCHIVE_CACHE_SIZE_MB));
        self.set_advanced_input(String::from_str("archive_warning_threshold_mb"), decimal_string(DEFAULT_ARCHIVE_WARNING_THRESHOLD_MB));
    }
}

} // verus!

verus! {

proof fn lemma_digit_char(d: nat)
    requires
        d < 10,
    ensures
        is_digit(digit_char(d)),
        digit_char(d) as int - '0' as int == d,
{
}

proof fn lemma_decimal_digits(n: nat)
    ensures
        decimal(n).len() > 0,
        forall|i: int| 0 <= i < decimal(n).len() ==> is_digit(#[trigger] decimal(n)[i]),
        digits_value(decimal(n)) == n,
    decreases n,
{
    let d = decimal(n);
    if n >= 10 {
        lemma_decimal_digits(n / 10);
        lemma_digit_char(n % 10);
        assert(d.drop_last() =~= decimal(n / 10));
        assert(forall|i: int| 0 <= i < d.len() - 1 ==> d[i] == decimal(n / 10)[i]);
        assert(d.last() == digit_char(n % 10));
        assert(digits_value(d) == digits_value(decimal(n / 10)) * 10 + (n % 10));
    } else {
        lemma_digit_char(n);
        assert(d.drop_last() =~= Seq::<char>::empty());
        assert(digits_value(d.drop_last()) == 0);
    }
}

/// A number written in decimal parses back to itself.
pub proof fn lemma_decimal_parses_back(n: u64)
    ensures
        parsed_u64(decimal(n as nat)) == Some(n),
{
    lemma_decimal_digits(n as nat);
    let d = decimal(n as nat);
    assert(is_digit(d[0]));
}

/// Each advanced setting lies in the range that the dialog accepts.
pub open spec fn within_ranges(a: AdvancedSettings) -> bool {
    &&& in_bounds(a.cache_size as u64, 1, 100, false)
    &&& in_bounds(a.max_loading_queue_size as u64, 1, 50, false)
    &&& in_bounds(a.max_being_loaded_queue_size as u64, 1, 50, false)
    &&& in_bounds(a.window_width as u64, 400, 10000, false)
    &&& in_bounds(a.window_height as u64, 300, 10000, false)
    &&& in_bounds(a.atlas_size as u64, 256, 8192, true)
    &&& in_bounds(a.double_click_threshold_ms as u64, 50, 1000, false)
    &&& in_bounds(a.archive_cache_size, 10, 10000, false)
    &&& in_bounds(a.archive_warning_threshold_mb, 10, 10000, false)
}

/// Texts that hold each advanced setting written in decimal, as the dialog fills them in
/// when it opens or resets, read back as exactly those settings when each lies in its range.
pub proof fn lemma_dialog_reads_back(inputs: Seq<(String, String)>, a: AdvancedSettings)
    requires
        within_ranges(a),
        input_value(inputs, "cache_size"@) == Some(decimal(a.cache_size as nat)),
        input_value(inputs, "max_loading_queue_size"@) == Some(decimal(a.max_loading_queue_size as nat)),
        input_value(inputs, "max_being_loaded_queue_size"@) == Some(decimal(a.max_being_loaded_queue_size as nat)),
        input_value(inputs, "window_width"@) == Some(decimal(a.window_width as nat)),
        input_value(inputs, "window_height"@) == Some(decimal(a.window_height as nat)),
        input_value(inputs, "atlas_size"@) == Some(decimal(a.atlas_size as nat)),
        input_value(inputs, "double_click_threshold_ms"@) == Some(decimal(a.double_click_threshold_ms as nat)),
        input_value(inputs, "archive_cache_size"@) == Some(decimal(a.archive_cache_size as nat)),
        input_value(inputs, "archive_warning_threshold_mb"@) == Some(decimal(a.archive_warning_threshold_mb as nat)),
    ensures
        advanced_settings_of(inputs) == Ok::<AdvancedSettings, Seq<char>>(a),
{
    lemma_decimal_parses_back(a.cache_size as u64);
    lemma_decimal_parses_back(a.max_loading_queue_size as u64);
    lemma_decimal_parses_back(a.max_being_loaded_queue_size as u64);
    lemma_decimal_parses_back(a.window_width as u64);
    lemma_decimal_parses_back(a.window_height as u64);
    lemma_decimal_parses_back(a.atlas_size as u64);
    lemma_decimal_parses_back(a.double_click_threshold_ms as u64);
    lemma_decimal_parses_back(a.archive_cache_size);
    lemma_decimal_parses_back(a.archive_warning_threshold_mb);
}

} // verus!

verus! {

/// The ranges the dialog accepts, written out: a cache of 1 to 100 images, queues of 1 to 50
/// operations, a window of 400 to 10000 by 300 to 10000 pixels, an atlas of 256 to 8192
/// pixels that is a power of two, a double click of 50 to 1000 ms, and archive sizes of 10 to
/// 10000 MB.
pub proof fn lemma_accepted_ranges(a: AdvancedSettings)
    ensures
        within_ranges(a) ==> {
            &&& 1 <= a.cache_size <= 100
            &&& 1 <= a.max_loading_queue_size <= 50
            &&& 1 <= a.max_being_loaded_queue_size <= 50
            &&& 400 <= a.window_width <= 10000
            &&& 300 <= a.window_height <= 10000
            &&& 256 <= a.atlas_size <= 8192
            &&& 50 <= a.double_click_threshold_ms <= 1000
            &&& 10 <= a.archive_cache_size <= 10000
            &&& 10 <= a.archive_warning_threshold_mb <= 10000
        },
        ({
            &&& 1 <= a.cache_size <= 100
            &&& 1 <= a.max_loading_queue_size <= 50
            &&& 1 <= a.max_being_loaded_queue_size <= 50
            &&& 400 <= a.window_width <= 10000
            &&& 300 <= a.window_height <= 10000
            &&& (a.atlas_size == 256 || a.atlas_size == 512 || a.atlas_size == 1024 || a.atlas_size == 2048
                || a.atlas_size == 4096 || a.atlas_size == 8192)
            &&& 50 <= a.double_click_threshold_ms <= 1000
            &&& 10 <= a.archive_cache_size <= 10000
            &&& 10 <= a.archive_warning_threshold_mb <= 10000
        }) ==> within_ranges(a),
        within_ranges(a) ==> a.atlas_size % 2 == 0,
{
    reveal_with_fuel(is_power_of_two, 15);
}

/// Settings that the dialog accepts lie in their ranges, so they can be applied.
pub proof fn lemma_parsed_within_ranges(inputs: Seq<(String, String)>, a: AdvancedSettings)
    requires
        advanced_settings_of(inputs) == Ok::<AdvancedSettings, Seq<char>>(a),
    ensures
        within_ranges(a),
        a.archive_cache_size * 1_048_576 <= u64::MAX,
{
}

} // verus!
