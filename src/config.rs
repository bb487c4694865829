//! Touch topology: ring and section layout, the interpretation mode, and the
//! relative-mode tracker.

use vstd::prelude::*;
use std::collections::HashMap;

verus! {

/// Logical rings of the playfield.
pub const LOGICAL_RINGS: usize = 4;

/// Highest logical ring.
pub const TOP_RING: usize = 3;

/// Relative mode: where a new pointer lands, how much physical movement
/// moves it by one logical ring, and the last observation of each pointer.
#[derive(Debug)]
pub struct TouccaRelativeConfig {
    /// Logical ring of a pointer when it is first seen.
    pub start: usize,
    /// Physical rings of movement per logical ring.
    pub threshold: usize,
    /// Pointer id to (last physical ring, current logical ring).
    pub map: HashMap<u32, (usize, usize)>,
}

/// How a physical ring becomes logical rings.
#[derive(Debug)]
pub enum TouccaMode {
    /// For each logical ring, the inclusive range of physical rings that
    /// activate it; ranges may overlap.
    Absolute([(usize, usize); 4]),
    /// Logical rings follow the pointer's movement since it was first seen.
    Relative(TouccaRelativeConfig),
}

/// The touch settings, validated.
pub struct TouccaTouchConfig {
    /// Physical rings that the playfield's radius is divided into.
    pub divisions: usize,
    /// Added to the playfield's geometric radius, in pixels.
    pub radius_compensation: i32,
    /// Contact radius, in sections.
    pub pointer_radius: u32,
    pub mode: TouccaMode,
}

impl TouccaRelativeConfig {
    /// Start and threshold are usable, and every tracked logical ring is one
    /// of the four.
    pub open spec fn wf(&self) -> bool {
        &&& self.start <= TOP_RING
        &&& self.threshold > 0
        &&& forall|id: u32| #[trigger] self.map@.contains_key(id) ==> self.map@[id].1 <= TOP_RING
    }
}

impl TouccaMode {
    /// The mode can map pointers.
    pub open spec fn wf(&self) -> bool {
        match self {
            TouccaMode::Absolute(_) => true,
            TouccaMode::Relative(c) => c.wf(),
        }
    }
}

/// Every range of an absolute mode lies inside the `divisions` physical
/// rings, low end first.
pub open spec fn ranges_valid(ranges: [(usize, usize); 4], divisions: usize) -> bool {
    ranges_valid_upto(ranges, divisions, 4)
}

impl TouccaTouchConfig {
    /// The settings are within their documented bounds.
    pub open spec fn wf(&self) -> bool {
        &&& 4 <= self.divisions <= 20
        &&& 1 <= self.pointer_radius <= 10
        &&& self.mode.wf()
        &&& match self.mode {
            TouccaMode::Absolute(ranges) => ranges_valid(ranges, self.divisions),
            TouccaMode::Relative(_) => true,
        }
    }
}

/// Physical rings when the settings name none.
pub const DEFAULT_DIVISIONS: i32 = 8;

/// Radius compensation when the settings name none.
pub const DEFAULT_RADIUS_COMPENSATION: i32 = 0;

/// Contact radius when the settings name none.
pub const DEFAULT_POINTER_RADIUS: i32 = 1;

/// Mode number of the absolute mode, the default.
pub const MODE_ABSOLUTE: i32 = 0;

/// Mode number of the relative mode.
pub const MODE_RELATIVE: i32 = 1;

/// Relative start ring when the settings name none.
pub const DEFAULT_RELATIVE_START: i32 = 1;

/// Relative threshold when the settings name none.
pub const DEFAULT_RELATIVE_THRESHOLD: i32 = 1;

/// The range keys of one logical ring, each `None` where it is absent: a
/// single physical ring, or the start and the end of a range.
#[derive(Clone, Copy, Debug, PartialEq, Eq, Structural)]
pub struct RingSetting {
    pub single: Option<i32>,
    pub start: Option<i32>,
    pub end: Option<i32>,
}

/// The touch settings as read, before validation, with the defaults of
/// absent keys filled in.
#[derive(Clone, Copy, Debug)]
pub struct TouchSettings {
    pub divisions: i32,
    pub radius_compensation: i32,
    pub pointer_radius: i32,
    pub mode: i32,
    pub rings: [RingSetting; 4],
    pub relative_start: i32,
    pub relative_threshold: i32,
}

/// Why touch settings were refused.
#[derive(Clone, Copy, Debug, PartialEq, Eq, Structural)]
pub enum ConfigError {
    /// The ring count is outside 4 to 20.
    InvalidDivisions,
    /// The contact radius is outside 1 to 10.
    InvalidPointerRadius,
    /// The mode is neither absolute nor relative.
    InvalidMode,
    /// The range of this logical ring is reversed or leaves the physical rings.
    InvalidRange(usize),
    /// The relative start ring is outside 0 to 3.
    InvalidRelativeStart,
    /// The relative threshold is not positive.
    InvalidThreshold,
}

/// The range of logical ring `i` that setting `s` gives: by default the
/// single physical ring `divisions - 4 + i`; a single ring replaces it, and a
/// start or an end replaces that end of it.
pub open spec fn resolved_range(divisions: int, s: RingSetting, i: int) -> (int, int) {
    let base = match s.single {
        Some(v) => v as int,
        None => divisions - 4 + i,
    };
    (
        match s.start {
            Some(v) => v as int,
            None => base,
        },
        match s.end {
            Some(v) => v as int,
            None => base,
        },
    )
}

/// The first logical ring among the first `n` whose resolved range is not
/// `0 <= low <= high < divisions`.
pub open spec fn first_bad_range(s: TouchSettings, n: nat) -> Option<usize>
    decreases n,
{
    if n == 0 {
        None
    } else {
        match first_bad_range(s, (n - 1) as nat) {
            Some(i) => Some(i),
            None => {
                let r = resolved_range(s.divisions as int, s.rings@[n - 1], n - 1);
                if 0 <= r.0 && r.0 <= r.1 && r.1 < s.divisions {
                    None
                } else {
                    Some((n - 1) as usize)
                }
            },
        }
    }
}

/// The first rule that settings `s` break, checked in order: ring count,
/// contact radius, then the mode and its own parameters.
pub open spec fn settings_error(s: TouchSettings) -> Option<ConfigError> {
    if !(4 <= s.divisions <= 20) {
        Some(ConfigError::InvalidDivisions)
    } else if !(1 <= s.pointer_radius <= 10) {
        Some(ConfigError::InvalidPointerRadius)
    } else if s.mode == MODE_ABSOLUTE {
        match first_bad_range(s, 4) {
            Some(i) => Some(ConfigError::InvalidRange(i)),
            None => None,
        }
    } else if s.mode == MODE_RELATIVE {
        if !(0 <= s.relative_start <= TOP_RING) {
            Some(ConfigError::InvalidRelativeStart)
        } else if s.relative_threshold <= 0 {
            Some(ConfigError::InvalidThreshold)
        } else {
            None
        }
    } else {
        Some(ConfigError::InvalidMode)
    }
}

impl TouccaTouchConfig {
    /// Validates touch settings. They are accepted exactly when they break no
    /// rule, and then carried over as they are, with an empty tracker in
    /// relative mode; otherwise the first rule broken is reported.
    pub fn from_settings(s: &TouchSettings) -> (r: Result<TouccaTouchConfig, ConfigError>)
        ensures
            match r {
                Ok(c) => {
                    &&& settings_error(*s) is None
                    &&& c.wf()
                    &&& c.divisions == s.divisions
                    &&& c.radius_compensation == s.radius_compensation
                    &&& c.pointer_radius == s.pointer_radius
                    &&& match c.mode {
                        TouccaMode::Absolute(ranges) => {
                            &&& s.mode == MODE_ABSOLUTE
                            &&& forall|i: int|
                                0 <= i < 4 ==> (#[trigger] ranges@[i].0 as int, ranges@[i].1 as int)
                                    == resolved_range(s.divisions as int, s.rings@[i], i)
                        },
                        TouccaMode::Relative(cfg) => {
                            &&& s.mode == MODE_RELATIVE
                            &&& cfg.start == s.relative_start
                            &&& cfg.threshold == s.relative_threshold
                            &&& cfg.map@ == Map::<u32, (usize, usize)>::empty()
                        },
                    }
                },
                Err(e) => settings_error(*s) == Some(e),
            },
    {
        if !(4 <= s.divisions && s.divisions <= 20) {
            return Err(ConfigError::InvalidDivisions);
        }
        if !(1 <= s.pointer_radius && s.pointer_radius <= 10) {
            return Err(ConfigError::InvalidPointerRadius);
        }
        let divisions = s.divisions as usize;
        let mode = if s.mode == MODE_ABSOLUTE {
            let mut ranges: [(usize, usize); 4] = [(0, 0); 4];
            let mut i: usize = 0;
            while i < 4
                invariant
                    i <= 4,
                    4 <= s.divisions <= 20,
                    1 <= s.pointer_radius <= 10,
                    s.mode == MODE_ABSOLUTE,
                    divisions == s.divisions,
                    first_bad_range(*s, i as nat) is None,
                    forall|j: int|
                        0 <= j < i ==> (#[trigger] ranges@[j].0 as int, ranges@[j].1 as int)
                            == resolved_range(s.divisions as int, s.rings@[j], j),
                    ranges_valid_upto(ranges, divisions, i as int),
                decreases 4 - i,
            {
                let ring = s.rings[i];
                let base: i64 = match ring.single {
                    Some(v) => v as i64,
                    None => s.divisions as i64 - 4 + i as i64,
                };
                let low: i64 = match ring.start {
                    Some(v) => v as i64,
                    None => base,
                };
                let high: i64 = match ring.end {
                    Some(v) => v as i64,
                    None => base,
                };
                if !(0 <= low && low <= high && high < s.divisions as i64) {
                    proof {
                        lemma_first_bad_range_stays(*s, (i + 1) as nat, 4);
                    }
                    return Err(ConfigError::InvalidRange(i));
                }
                ranges[i] = (low as usize, high as usize);
                i += 1;
            }
            TouccaMode::Absolute(ranges)
        } else if s.mode == MODE_RELATIVE {
            if !(0 <= s.relative_start && s.relative_start <= 3) {
                return Err(ConfigError::InvalidRelativeStart);
            }
            if s.relative_threshold <= 0 {
                return Err(ConfigError::InvalidThreshold);
            }
            TouccaMode::Relative(
                TouccaRelativeConfig {
                    start: s.relative_start as usize,
                    threshold: s.relative_threshold as usize,
                    map: HashMap::new(),
                },
            )
        } else {
            return Err(ConfigError::InvalidMode);
        };
        Ok(
            TouccaTouchConfig {
                divisions,
                radius_compensation: s.radius_compensation,
                pointer_radius: s.pointer_radius as u32,
                mode,
            },
        )
    }
}

/// Virtual-key code of Insert, the default test key.
pub const DEFAULT_TEST_KEY: i32 = 0x2D;

/// Virtual-key code of Delete, the default service key.
pub const DEFAULT_SERVICE_KEY: i32 = 0x2E;

/// Virtual-key code of Home, the default coin key.
pub const DEFAULT_COIN_KEY: i32 = 0x24;

/// Virtual-key code of Up, the default volume-up key.
pub const DEFAULT_VOL_UP_KEY: i32 = 0x26;

/// Virtual-key code of Down, the default volume-down key.
pub const DEFAULT_VOL_DOWN_KEY: i32 = 0x28;

/// Default keys of the cells, one row of ten keys for each quarter of the
/// cells: "1234567890", "QWERTYUIOP", "ASDFGHJKL;" and "ZXCVBNM,./", as
/// virtual-key codes.
pub const DEFAULT_CELL_KEYS: [i32; 40] = [
    0x31, 0x32, 0x33, 0x34, 0x35, 0x36, 0x37, 0x38, 0x39, 0x30,
    0x51, 0x57, 0x45, 0x52, 0x54, 0x59, 0x55, 0x49, 0x4F, 0x50,
    0x41, 0x53, 0x44, 0x46, 0x47, 0x48, 0x4A, 0x4B, 0x4C, 0xBA,
    0x5A, 0x58, 0x43, 0x56, 0x42, 0x4E, 0x4D, 0xBC, 0xBE, 0xBF,
];

/// The default key of `cell`: each 60 cells (two logical rings of one half)
/// share a row, and each three neighbouring sections share a key.
pub open spec fn default_key(cell: int) -> i32 {
    DEFAULT_CELL_KEYS@[(cell / 60) * 10 + (cell % 30) / 3]
}

/// The default key of `cell`, which is below 240.
pub fn default_cell_key(cell: usize) -> (r: i32)
    requires
        cell < 240,
    ensures
        r == default_key(cell as int),
{
    DEFAULT_CELL_KEYS[(cell / 60) * 10 + (cell % 30) / 3]
}

/// Key bindings and touch settings.
pub struct TouccaConfig {
    pub vk_test: i32,
    pub vk_service: i32,
    pub vk_coin: i32,
    pub vk_vol_up: i32,
    pub vk_vol_down: i32,
    /// Key that activates each cell.
    pub vk_cell: [i32; 240],
    pub touch: TouccaTouchConfig,
}

impl TouccaConfig {
    /// The configuration in force before any settings are read: the default
    /// keys, no cell keys, eight rings, contact radius 1, compensation 30, and
    /// absolute mode with every logical ring on physical ring 0.
    pub fn default() -> (r: TouccaConfig)
        ensures
            r.vk_test == DEFAULT_TEST_KEY,
            r.vk_service == DEFAULT_SERVICE_KEY,
            r.vk_coin == DEFAULT_COIN_KEY,
            r.vk_vol_up == DEFAULT_VOL_UP_KEY,
            r.vk_vol_down == DEFAULT_VOL_DOWN_KEY,
            forall|i: int| 0 <= i < 240 ==> #[trigger] r.vk_cell@[i] == 0,
            r.touch.divisions == 8,
            r.touch.pointer_radius == 1,
            r.touch.radius_compensation == 30,
            r.touch.mode is Absolute,
            forall|i: int| 0 <= i < 4 ==> #[trigger] r.touch.mode->Absolute_0@[i] == (0usize, 0usize),
            r.touch.wf(),
    {
        TouccaConfig {
            vk_test: DEFAULT_TEST_KEY,
            vk_service: DEFAULT_SERVICE_KEY,
            vk_coin: DEFAULT_COIN_KEY,
            vk_vol_up: DEFAULT_VOL_UP_KEY,
            vk_vol_down: DEFAULT_VOL_DOWN_KEY,
            vk_cell: [0; 240],
            touch: TouccaTouchConfig {
                divisions: 8,
                pointer_radius: 1,
                radius_compensation: 30,
                mode: TouccaMode::Absolute([(0, 0); 4]),
            },
        }
    }
}

proof fn lemma_first_bad_range_stays(s: TouchSettings, n: nat, m: nat)
    requires
        n <= m,
        first_bad_range(s, n) is Some,
    ensures
        first_bad_range(s, m) == first_bad_range(s, n),
    decreases m - n,
{
    if n < m {
        lemma_first_bad_range_stays(s, n, (m - 1) as nat);
    }
}

/// The first `n` ranges lie inside the `divisions` physical rings, low end
/// first.
pub open spec fn ranges_valid_upto(ranges: [(usize, usize); 4], divisions: usize, n: int) -> bool {
    forall|i: int| 0 <= i < n ==> #[trigger] ranges@[i].0 <= ranges@[i].1 < divisions
}

} // verus!
