//! Configuration: types, defaults, validation and migration from version 2.
use crate::text::{
    chars_of, contains_text, contains_text_exec, parse_unsigned, parse_unsigned_exec, trim,
    trim_chars,
};
use crate::time::{all_wf, fits, fits_spec, new_block, Block};
use serde_json::Value;
use crate::config::LegacyValue::{Flag, List, Other, Text, Whole};
use vstd::prelude::*;
use vstd::string::*;

verus! {

broadcast use vstd::string::group_string_axioms;

/// The configuration format this version writes.
pub const CONFIG_VERSION: u32 = 3;

#[derive(Clone, Copy, Debug, PartialEq, Eq, Structural)]
pub enum ScheduleMode {
    EveryDay,
    WeekdayWeekend,
    IndividualDays,
}

#[derive(Clone, Copy, Debug, PartialEq, Eq, Structural)]
pub enum Policy {
    Always,
    Never,
    AllowedHoursOnly,
}

/// One timeline lane.
#[derive(Clone, Copy, Debug, PartialEq, Eq, Structural, Hash)]
pub enum Track {
    EveryDay,
    Weekday,
    Weekend,
    Monday,
    Tuesday,
    Wednesday,
    Thursday,
    Friday,
    Saturday,
    Sunday,
}

/// The seven day lanes, Monday first.
pub open spec fn day_tracks() -> Seq<Track> {
    seq![
        Track::Monday,
        Track::Tuesday,
        Track::Wednesday,
        Track::Thursday,
        Track::Friday,
        Track::Saturday,
        Track::Sunday,
    ]
}

/// Every lane, in the order validation checks them.
pub open spec fn all_tracks() -> Seq<Track> {
    seq![Track::EveryDay, Track::Weekday, Track::Weekend] + day_tracks()
}

pub open spec fn track_name(t: Track) -> Seq<char> {
    match t {
        Track::EveryDay => "Every day"@,
        Track::Weekday => "Mon – Fri"@,
        Track::Weekend => "Sat – Sun"@,
        Track::Monday => "Monday"@,
        Track::Tuesday => "Tuesday"@,
        Track::Wednesday => "Wednesday"@,
        Track::Thursday => "Thursday"@,
        Track::Friday => "Friday"@,
        Track::Saturday => "Saturday"@,
        Track::Sunday => "Sunday"@,
    }
}

/// The lane a weekday (Monday = 0) uses in a schedule mode.
pub open spec fn track_for_day(mode: ScheduleMode, weekday_index: u32) -> Track {
    match mode {
        ScheduleMode::EveryDay => Track::EveryDay,
        ScheduleMode::WeekdayWeekend => if weekday_index >= 5 {
            Track::Weekend
        } else {
            Track::Weekday
        },
        ScheduleMode::IndividualDays => day_tracks()[(weekday_index % 7) as int],
    }
}

/// The lanes shown for a schedule mode, in display order.
pub open spec fn track_lanes(mode: ScheduleMode) -> Seq<Track> {
    match mode {
        ScheduleMode::EveryDay => seq![Track::EveryDay],
        ScheduleMode::WeekdayWeekend => seq![Track::Weekday, Track::Weekend],
        ScheduleMode::IndividualDays => day_tracks(),
    }
}

/// The lanes whose overnight blocks carry over into the start of `t`.
pub open spec fn track_carry_sources(t: Track) -> Seq<Track> {
    match t {
        Track::EveryDay => seq![Track::EveryDay],
        Track::Weekday => seq![Track::Weekday, Track::Weekend],
        Track::Weekend => seq![Track::Weekend, Track::Weekday],
        Track::Monday => seq![Track::Sunday],
        Track::Tuesday => seq![Track::Monday],
        Track::Wednesday => seq![Track::Tuesday],
        Track::Thursday => seq![Track::Wednesday],
        Track::Friday => seq![Track::Thursday],
        Track::Saturday => seq![Track::Friday],
        Track::Sunday => seq![Track::Saturday],
    }
}

impl Track {
    pub fn name(self) -> (r: &'static str)
        ensures
            r@ == track_name(self),
    {
        match self {
            Track::EveryDay => "Every day",
            Track::Weekday => "Mon – Fri",
            Track::Weekend => "Sat – Sun",
            Track::Monday => "Monday",
            Track::Tuesday => "Tuesday",
            Track::Wednesday => "Wednesday",
            Track::Thursday => "Thursday",
            Track::Friday => "Friday",
            Track::Saturday => "Saturday",
            Track::Sunday => "Sunday",
        }
    }

    pub fn short_name(self) -> (r: &'static str)
        ensures
            r@ == match self {
                Track::Monday => "Mon"@,
                Track::Tuesday => "Tue"@,
                Track::Wednesday => "Wed"@,
                Track::Thursday => "Thu"@,
                Track::Friday => "Fri"@,
                Track::Saturday => "Sat"@,
                Track::Sunday => "Sun"@,
                other => track_name(other),
            },
    {
        match self {
            Track::Monday => "Mon",
            Track::Tuesday => "Tue",
            Track::Wednesday => "Wed",
            Track::Thursday => "Thu",
            Track::Friday => "Fri",
            Track::Saturday => "Sat",
            Track::Sunday => "Sun",
            other => other.name(),
        }
    }

    /// Monday = 0 … Sunday = 6.
    pub fn from_weekday_index(index: u32) -> (t: Track)
        ensures
            t == day_tracks()[(index % 7) as int],
    {
        let days = [
            Track::Monday,
            Track::Tuesday,
            Track::Wednesday,
            Track::Thursday,
            Track::Friday,
            Track::Saturday,
            Track::Sunday,
        ];
        assert(days@ == day_tracks());
        days[(index % 7) as usize]
    }

    /// Lanes shown for a schedule mode, in display order.
    pub fn lanes(mode: ScheduleMode) -> (r: Vec<Track>)
        ensures
            r@ == track_lanes(mode),
    {
        match mode {
            ScheduleMode::EveryDay => vec![Track::EveryDay],
            ScheduleMode::WeekdayWeekend => vec![Track::Weekday, Track::Weekend],
            ScheduleMode::IndividualDays => vec![
                Track::Monday,
                Track::Tuesday,
                Track::Wednesday,
                Track::Thursday,
                Track::Friday,
                Track::Saturday,
                Track::Sunday,
            ],
        }
    }

    /// Lane that applies on a weekday (Monday = 0) in a given mode.
    pub fn for_day(mode: ScheduleMode, weekday_index: u32) -> (t: Track)
        ensures
            t == track_for_day(mode, weekday_index),
    {
        match mode {
            ScheduleMode::EveryDay => Track::EveryDay,
            ScheduleMode::WeekdayWeekend => {
                if weekday_index >= 5 {
                    Track::Weekend
                } else {
                    Track::Weekday
                }
            },
            ScheduleMode::IndividualDays => Track::from_weekday_index(weekday_index),
        }
    }

    /// Lanes whose overnight blocks carry over into the start of `self`.
    pub fn carry_sources(self) -> (r: Vec<Track>)
        ensures
            r@ == track_carry_sources(self),
    {
        match self {
            Track::EveryDay => vec![Track::EveryDay],
            Track::Weekday => vec![Track::Weekday, Track::Weekend],
            Track::Weekend => vec![Track::Weekend, Track::Weekday],
            Track::Monday => vec![Track::Sunday],
            Track::Tuesday => vec![Track::Monday],
            Track::Wednesday => vec![Track::Tuesday],
            Track::Thursday => vec![Track::Wednesday],
            Track::Friday => vec![Track::Thursday],
            Track::Saturday => vec![Track::Friday],
            Track::Sunday => vec![Track::Saturday],
        }
    }
}

/// The lane used on the day before a weekday is among the lanes that the timeline shows carrying
/// over into that weekday's lane, in every mode: what the timeline draws is what blocks.
pub proof fn lemma_yesterday_is_a_carry_source(mode: ScheduleMode, weekday_index: u32)
    requires
        weekday_index < 7,
    ensures
        track_carry_sources(track_for_day(mode, weekday_index)).contains(
            track_for_day(mode, ((weekday_index + 6) % 7) as u32),
        ),
{
    let today = track_for_day(mode, weekday_index);
    let yesterday = track_for_day(mode, ((weekday_index + 6) % 7) as u32);
    let src = track_carry_sources(today);
    match mode {
        ScheduleMode::EveryDay => {
            assert(src[0] == yesterday);
        },
        ScheduleMode::WeekdayWeekend => {
            if yesterday == src[0] {
            } else {
                assert(src[1] == yesterday);
            }
        },
        ScheduleMode::IndividualDays => {
            assert(src[0] == yesterday);
        },
    }
}

/// The lane a weekday uses is one of the lanes shown for the mode.
pub proof fn lemma_day_track_is_shown(mode: ScheduleMode, weekday_index: u32)
    ensures
        track_lanes(mode).contains(track_for_day(mode, weekday_index)),
{
    let t = track_for_day(mode, weekday_index);
    match mode {
        ScheduleMode::EveryDay => {
            assert(track_lanes(mode)[0] == t);
        },
        ScheduleMode::WeekdayWeekend => {
            if weekday_index >= 5 {
                assert(track_lanes(mode)[1] == t);
            } else {
                assert(track_lanes(mode)[0] == t);
            }
        },
        ScheduleMode::IndividualDays => {
            assert(track_lanes(mode)[(weekday_index % 7) as int] == t);
        },
    }
}

/// What a day schedule holds.
pub struct DayScheduleView {
    pub enabled: bool,
    pub blocks: Seq<Block>,
}

#[derive(Clone, Debug, PartialEq, Eq)]
pub struct DaySchedule {
    pub enabled: bool,
    pub blocks: Vec<Block>,
}

impl View for DaySchedule {
    type V = DayScheduleView;

    open spec fn view(&self) -> DayScheduleView {
        DayScheduleView { enabled: self.enabled, blocks: self.blocks@ }
    }
}

impl DaySchedule {
    fn with(start: u16, end: u16) -> (d: DaySchedule)
        requires
            new_block(start as int, end as int) is Ok,
        ensures
            d@ == (DayScheduleView {
                enabled: true,
                blocks: seq![new_block(start as int, end as int)->Ok_0],
            }),
    {
        let mut blocks: Vec<Block> = Vec::new();
        blocks.push(Block::new(start, end).expect("valid default"));
        DaySchedule { enabled: true, blocks }
    }
}

/// What the lanes of a schedule hold.
pub struct DaysView {
    pub every_day: DayScheduleView,
    pub weekday: DayScheduleView,
    pub weekend: DayScheduleView,
    pub monday: DayScheduleView,
    pub tuesday: DayScheduleView,
    pub wednesday: DayScheduleView,
    pub thursday: DayScheduleView,
    pub friday: DayScheduleView,
    pub saturday: DayScheduleView,
    pub sunday: DayScheduleView,
}

impl DaysView {
    pub open spec fn get(self, t: Track) -> DayScheduleView {
        match t {
            Track::EveryDay => self.every_day,
            Track::Weekday => self.weekday,
            Track::Weekend => self.weekend,
            Track::Monday => self.monday,
            Track::Tuesday => self.tuesday,
            Track::Wednesday => self.wednesday,
            Track::Thursday => self.thursday,
            Track::Friday => self.friday,
            Track::Saturday => self.saturday,
            Track::Sunday => self.sunday,
        }
    }

    /// Whether a lane can start blocks. "Every day" has no off switch.
    pub open spec fn is_enabled(self, t: Track) -> bool {
        t == Track::EveryDay || self.get(t).enabled
    }

    /// Every block of every lane has a block's shape.
    pub open spec fn wf(self) -> bool {
        forall|t: Track| all_wf(#[trigger] self.get(t).blocks)
    }
}

#[derive(Clone, Debug, PartialEq, Eq)]
pub struct Days {
    pub every_day: DaySchedule,
    pub weekday: DaySchedule,
    pub weekend: DaySchedule,
    pub monday: DaySchedule,
    pub tuesday: DaySchedule,
    pub wednesday: DaySchedule,
    pub thursday: DaySchedule,
    pub friday: DaySchedule,
    pub saturday: DaySchedule,
    pub sunday: DaySchedule,
}

impl View for Days {
    type V = DaysView;

    open spec fn view(&self) -> DaysView {
        DaysView {
            every_day: self.every_day@,
            weekday: self.weekday@,
            weekend: self.weekend@,
            monday: self.monday@,
            tuesday: self.tuesday@,
            wednesday: self.wednesday@,
            thursday: self.thursday@,
            friday: self.friday@,
            saturday: self.saturday@,
            sunday: self.sunday@,
        }
    }
}

impl Days {
    pub open spec fn spec_get(self, t: Track) -> DaySchedule {
        match t {
            Track::EveryDay => self.every_day,
            Track::Weekday => self.weekday,
            Track::Weekend => self.weekend,
            Track::Monday => self.monday,
            Track::Tuesday => self.tuesday,
            Track::Wednesday => self.wednesday,
            Track::Thursday => self.thursday,
            Track::Friday => self.friday,
            Track::Saturday => self.saturday,
            Track::Sunday => self.sunday,
        }
    }

    pub fn get(&self, track: Track) -> (r: &DaySchedule)
        ensures
            *r == self.spec_get(track),
            r@ == self@.get(track),
    {
        match track {
            Track::EveryDay => &self.every_day,
            Track::Weekday => &self.weekday,
            Track::Weekend => &self.weekend,
            Track::Monday => &self.monday,
            Track::Tuesday => &self.tuesday,
            Track::Wednesday => &self.wednesday,
            Track::Thursday => &self.thursday,
            Track::Friday => &self.friday,
            Track::Saturday => &self.saturday,
            Track::Sunday => &self.sunday,
        }
    }

    /// `self` with lane `t` replaced by `d`.
    pub open spec fn spec_set(self, t: Track, d: DaySchedule) -> Days {
        match t {
            Track::EveryDay => Days { every_day: d, ..self },
            Track::Weekday => Days { weekday: d, ..self },
            Track::Weekend => Days { weekend: d, ..self },
            Track::Monday => Days { monday: d, ..self },
            Track::Tuesday => Days { tuesday: d, ..self },
            Track::Wednesday => Days { wednesday: d, ..self },
            Track::Thursday => Days { thursday: d, ..self },
            Track::Friday => Days { friday: d, ..self },
            Track::Saturday => Days { saturday: d, ..self },
            Track::Sunday => Days { sunday: d, ..self },
        }
    }

    pub fn get_mut(&mut self, track: Track) -> (r: &mut DaySchedule)
        ensures
            *r == old(self).spec_get(track),
            *final(self) == old(self).spec_set(track, *final(r)),
    {
        match track {
            Track::EveryDay => &mut self.every_day,
            Track::Weekday => &mut self.weekday,
            Track::Weekend => &mut self.weekend,
            Track::Monday => &mut self.monday,
            Track::Tuesday => &mut self.tuesday,
            Track::Wednesday => &mut self.wednesday,
            Track::Thursday => &mut self.thursday,
            Track::Friday => &mut self.friday,
            Track::Saturday => &mut self.saturday,
            Track::Sunday => &mut self.sunday,
        }
    }

    /// Whether a lane can start blocks. "Every day" has no off switch.
    pub fn is_enabled(&self, track: Track) -> (r: bool)
        ensures
            r == self@.is_enabled(track),
    {
        track == Track::EveryDay || self.get(track).enabled
    }
}


/// The schedule a new configuration starts with: 23:00–07:00, and 00:00–09:00 at weekends.
pub open spec fn default_days() -> DaysView {
    let night = DayScheduleView { enabled: true, blocks: seq![Block { start: 1380, end: 420 }] };
    let weekend = DayScheduleView { enabled: true, blocks: seq![Block { start: 0, end: 540 }] };
    DaysView {
        every_day: night,
        weekday: night,
        weekend: weekend,
        monday: night,
        tuesday: night,
        wednesday: night,
        thursday: night,
        friday: night,
        saturday: weekend,
        sunday: weekend,
    }
}

impl Default for Days {
    fn default() -> (d: Days)
        ensures
            d@ == default_days(),
    {
        Days {
            every_day: DaySchedule::with(23 * 60, 7 * 60),
            weekday: DaySchedule::with(23 * 60, 7 * 60),
            weekend: DaySchedule::with(0, 9 * 60),
            monday: DaySchedule::with(23 * 60, 7 * 60),
            tuesday: DaySchedule::with(23 * 60, 7 * 60),
            wednesday: DaySchedule::with(23 * 60, 7 * 60),
            thursday: DaySchedule::with(23 * 60, 7 * 60),
            friday: DaySchedule::with(23 * 60, 7 * 60),
            saturday: DaySchedule::with(0, 9 * 60),
            sunday: DaySchedule::with(0, 9 * 60),
        }
    }
}

#[derive(Clone, Copy, Debug, PartialEq, Eq, Structural)]
pub struct Policies {
    pub change_times: Policy,
    pub turn_off: Policy,
    pub uninstall: Policy,
    pub remove_executables: Policy,
    /// Whether these choices can be edited later from Settings. Configurations written before
    /// this option existed get `Never`, like new installs.
    pub change_locks: Policy,
}

/// What a configuration written before the lock choices could be edited gets for them.
pub fn never() -> (p: Policy)
    ensures
        p == Policy::Never,
{
    Policy::Never
}

/// The lock choices of a new configuration: everything allowed, and the choices themselves locked.
pub open spec fn default_policies() -> Policies {
    Policies {
        change_times: Policy::Always,
        turn_off: Policy::Always,
        uninstall: Policy::Always,
        remove_executables: Policy::Always,
        change_locks: Policy::Never,
    }
}

impl Default for Policies {
    fn default() -> (p: Policies)
        ensures
            p == default_policies(),
    {
        Policies {
            change_times: Policy::Always,
            turn_off: Policy::Always,
            uninstall: Policy::Always,
            remove_executables: Policy::Always,
            change_locks: Policy::Never,
        }
    }
}

#[derive(Clone, Copy, Debug, PartialEq, Eq, Structural)]
pub struct Shortcuts {
    pub start_menu: bool,
    pub desktop: bool,
}

impl Default for Shortcuts {
    fn default() -> (s: Shortcuts)
        ensures
            s == (Shortcuts { start_menu: true, desktop: false }),
    {
        Shortcuts { start_menu: true, desktop: false }
    }
}

#[derive(Clone, Copy, Debug, PartialEq, Eq, Structural)]
pub enum Theme {
    Violet,
    Blue,
    Gold,
    Light,
}

impl Default for Theme {
    fn default() -> (t: Theme)
        ensures
            t == Theme::Violet,
    {
        Theme::Violet
    }
}

impl Theme {
    /// Every theme, in the order they are offered.
    pub fn all() -> (r: [Theme; 4])
        ensures
            r@ == seq![Theme::Violet, Theme::Blue, Theme::Gold, Theme::Light],
    {
        [Theme::Violet, Theme::Blue, Theme::Gold, Theme::Light]
    }

    pub fn name(self) -> (r: &'static str)
        ensures
            r@ == match self {
                Theme::Violet => "Violet"@,
                Theme::Blue => "Blue"@,
                Theme::Gold => "Gold"@,
                Theme::Light => "Light"@,
            },
    {
        match self {
            Theme::Violet => "Violet",
            Theme::Blue => "Blue",
            Theme::Gold => "Gold",
            Theme::Light => "Light",
        }
    }
}

/// Personal settings. Not covered by the lock choices made during setup.
#[derive(Clone, Copy, Debug, PartialEq, Eq, Structural)]
pub struct Preferences {
    pub theme: Theme,
    pub notify_before_block: bool,
    pub notify_minutes: u32,
}

pub open spec fn default_preferences() -> Preferences {
    Preferences { theme: Theme::Violet, notify_before_block: false, notify_minutes: 10 }
}

impl Default for Preferences {
    fn default() -> (p: Preferences)
        ensures
            p == default_preferences(),
    {
        Preferences { theme: Theme::default(), notify_before_block: false, notify_minutes: 10 }
    }
}

/// What a configuration holds.
pub struct ConfigView {
    pub version: u32,
    pub setup_completed: bool,
    pub schedule_mode: ScheduleMode,
    pub days: DaysView,
    pub policies: Policies,
    pub executables: Seq<Seq<char>>,
    pub target_user_sid: Seq<char>,
    pub check_interval_seconds: u32,
    pub shortcuts: Shortcuts,
    pub preferences: Preferences,
}

#[derive(Clone, Debug, PartialEq, Eq)]
pub struct Config {
    pub version: u32,
    pub setup_completed: bool,
    pub schedule_mode: ScheduleMode,
    pub days: Days,
    pub policies: Policies,
    pub executables: Vec<String>,
    pub target_user_sid: String,
    pub check_interval_seconds: u32,
    pub shortcuts: Shortcuts,
    pub preferences: Preferences,
}

/// The texts of a list of strings.
pub open spec fn texts(v: Seq<String>) -> Seq<Seq<char>> {
    v.map_values(|s: String| s@)
}

impl View for Config {
    type V = ConfigView;

    open spec fn view(&self) -> ConfigView {
        ConfigView {
            version: self.version,
            setup_completed: self.setup_completed,
            schedule_mode: self.schedule_mode,
            days: self.days@,
            policies: self.policies,
            executables: texts(self.executables@),
            target_user_sid: self.target_user_sid@,
            check_interval_seconds: self.check_interval_seconds,
            shortcuts: self.shortcuts,
            preferences: self.preferences,
        }
    }
}

/// A new configuration: not set up, no apps, the default schedule and lock choices.
pub open spec fn default_config() -> ConfigView {
    ConfigView {
        version: CONFIG_VERSION,
        setup_completed: false,
        schedule_mode: ScheduleMode::EveryDay,
        days: default_days(),
        policies: default_policies(),
        executables: Seq::empty(),
        target_user_sid: Seq::empty(),
        check_interval_seconds: 2,
        shortcuts: Shortcuts { start_menu: true, desktop: false },
        preferences: default_preferences(),
    }
}

impl Default for Config {
    fn default() -> (c: Config)
        ensures
            c@ == default_config(),
    {
        let c = Config {
            version: CONFIG_VERSION,
            setup_completed: false,
            schedule_mode: ScheduleMode::EveryDay,
            days: Days::default(),
            policies: Policies::default(),
            executables: Vec::new(),
            target_user_sid: String::new(),
            check_interval_seconds: 2,
            shortcuts: Shortcuts::default(),
            preferences: Preferences::default(),
        };
        assert(c@.executables =~= Seq::<Seq<char>>::empty());
        c
    }
}

/// No two blocks of a lane share a minute.
pub open spec fn lane_is_free(blocks: Seq<Block>) -> bool {
    forall|i: int, j: int|
        0 <= i < j < blocks.len() ==> !(#[trigger] blocks[j]).spec_overlaps(#[trigger] blocks[i])
}

/// The first of `tracks` whose lane has overlapping blocks.
pub open spec fn first_overlapping(days: DaysView, tracks: Seq<Track>) -> Option<Track>
    decreases tracks.len(),
{
    if tracks.len() == 0 {
        None
    } else if !lane_is_free(days.get(tracks[0]).blocks) {
        Some(tracks[0])
    } else {
        first_overlapping(days, tracks.drop_first())
    }
}

pub proof fn lemma_first_overlapping(days: DaysView, tracks: Seq<Track>, k: int)
    requires
        0 <= k <= tracks.len(),
        forall|j: int| 0 <= j < k ==> lane_is_free(days.get(#[trigger] tracks[j]).blocks),
    ensures
        k == tracks.len() ==> first_overlapping(days, tracks) is None,
        k < tracks.len() && !lane_is_free(days.get(tracks[k]).blocks) ==> first_overlapping(
            days,
            tracks,
        ) == Some(tracks[k]),
    decreases k,
{
    if k > 0 {
        let t = tracks.drop_first();
        assert forall|j: int| 0 <= j < k - 1 implies lane_is_free(days.get(#[trigger] t[j]).blocks) by {
            assert(t[j] == tracks[j + 1]);
        }
        assert(lane_is_free(days.get(tracks[0]).blocks));
        lemma_first_overlapping(days, t, k - 1);
        if k < tracks.len() {
            assert(t[k - 1] == tracks[k]);
        }
    }
}

pub open spec fn overlap_message(t: Track) -> Seq<char> {
    "Two blocks overlap on "@ + track_name(t) + "."@
}

/// Whether no two blocks of a lane overlap.
pub fn lane_free(blocks: &[Block]) -> (r: bool)
    requires
        all_wf(blocks@),
    ensures
        r == lane_is_free(blocks@),
{
    let n = blocks.len();
    for index in 0..n
        invariant
            n == blocks@.len(),
            all_wf(blocks@),
            forall|i: int, j: int|
                0 <= i < index && i < j < n ==> !(#[trigger] blocks@[j]).spec_overlaps(
                    #[trigger] blocks@[i],
                ),
    {
        let mut j: usize = index + 1;
        while j < n
            invariant
                index < n,
                index + 1 <= j <= n,
                n == blocks@.len(),
                all_wf(blocks@),
                forall|k: int| index < k < j ==> !(#[trigger] blocks@[k]).spec_overlaps(blocks@[index as int]),
            decreases n - j,
        {
            if blocks[j].overlaps(&blocks[index]) {
                return false;
            }
            j = j + 1;
        }
    }
    true
}

/// The texts an optional string holds.
pub open spec fn opt_text(o: Option<String>) -> Option<Seq<char>> {
    match o {
        Some(s) => Some(s@),
        None => None,
    }
}

/// Splits `s` at every `c`, as `str::split` does: `k` separators give `k + 1` parts.
pub open spec fn split_on(s: Seq<char>, c: char) -> Seq<Seq<char>>
    decreases s.len(),
{
    if s.len() == 0 {
        seq![Seq::empty()]
    } else {
        let p = split_on(s.drop_last(), c);
        if s.last() == c {
            p.push(Seq::empty())
        } else {
            p.update(p.len() - 1, p.last().push(s.last()))
        }
    }
}

pub proof fn lemma_split_on_len(s: Seq<char>, c: char)
    ensures
        split_on(s, c).len() >= 1,
    decreases s.len(),
{
    if s.len() > 0 {
        lemma_split_on_len(s.drop_last(), c);
    }
}

/// The parts of `s` between the `c`s.
pub fn split_chars(s: &[char], c: char) -> (r: Vec<Vec<char>>)
    ensures
        r@.map_values(|v: Vec<char>| v@) == split_on(s@, c),
{
    let mut parts: Vec<Vec<char>> = Vec::new();
    let mut current: Vec<char> = Vec::new();
    let n = s.len();
    for i in 0..n
        invariant
            n == s@.len(),
            parts@.map_values(|v: Vec<char>| v@).push(current@) == split_on(s@.take(i as int), c),
    {
        let ghost before = s@.take(i as int);
        proof {
            assert(s@.take(i + 1).drop_last() == before);
            assert(s@.take(i + 1).last() == s@[i as int]);
            lemma_split_on_len(before, c);
        }
        if s[i] == c {
            let done = current;
            parts.push(done);
            current = Vec::new();
            assert(parts@.map_values(|v: Vec<char>| v@).push(current@) =~= split_on(
                s@.take(i + 1),
                c,
            ));
        } else {
            current.push(s[i]);
            assert(parts@.map_values(|v: Vec<char>| v@).push(current@) =~= split_on(
                s@.take(i + 1),
                c,
            ));
        }
    }
    parts.push(current);
    assert(s@.take(n as int) == s@);
    assert(parts@.map_values(|v: Vec<char>| v@) =~= split_on(s@, c));
    parts
}

/// The textual form `S-1-<authority>-<sub>…` of a Windows security identifier: `S` (or `s`),
/// revision 1, an authority that fits in 64 bits and one to fifteen parts that fit in 32 bits.
pub open spec fn is_sid(s: Seq<char>) -> bool {
    let p = split_on(s, '-');
    &&& p.len() >= 3
    &&& (p[0] == seq!['S'] || p[0] == seq!['s'])
    &&& p[1] == seq!['1']
    &&& parse_unsigned(p[2], u64::MAX as nat) is Some
    &&& 1 <= p.len() - 3 <= 15
    &&& forall|i: int| 3 <= i < p.len() ==> (#[trigger] parse_unsigned(p[i], u32::MAX as nat)) is Some
}

/// A SID written out: `S-1-`, the authority, then each sub-authority after a `-`, all in
/// decimal.
pub open spec fn sid_text(authority: nat, subs: Seq<nat>) -> Seq<char>
    decreases subs.len(),
{
    if subs.len() == 0 {
        "S-1-"@ + crate::text::decimal(authority)
    } else {
        sid_text(authority, subs.drop_last()) + "-"@ + crate::text::decimal(subs.last())
    }
}

/// The decimal digits of a number read back as that number, and hold neither `+` nor `-`.
pub proof fn lemma_decimal_reads_back(n: nat)
    ensures
        crate::text::all_digits(crate::text::decimal(n)),
        crate::text::digits_value(crate::text::decimal(n)) == n,
        crate::text::decimal(n).len() > 0,
        crate::text::decimal(n)[0] != '+',
        !crate::text::decimal(n).contains('-'),
        parse_unsigned(crate::text::decimal(n), n) == Some(n),
        forall|max: nat| #[trigger] parse_unsigned(crate::text::decimal(n), max) is Some <==> n <= max,
    decreases n,
{
    let d = crate::text::decimal(n);
    crate::time::lemma_digit_char(n % 10);
    if n < 10 {
        assert(d == seq![crate::text::digit_char(n)]);
        assert(d.drop_last().len() == 0);
        assert(crate::text::digits_value(d.drop_last()) == 0);
    } else {
        lemma_decimal_reads_back(n / 10);
        let e = crate::text::decimal(n / 10);
        assert(d == e.push(crate::text::digit_char(n % 10)));
        assert(d.drop_last() == e);
        assert(d[0] == e[0]);
        assert forall|i: int| 0 <= i < d.len() implies crate::text::is_digit(#[trigger] d[i]) by {
            if i < e.len() {
                assert(d[i] == e[i]);
            }
        }
    }
    assert(crate::text::all_digits(d));
    assert(crate::text::unsigned_digits(d) == d);
    assert(!d.contains('-')) by {
        if d.contains('-') {
            let i = choose|i: int| 0 <= i < d.len() && d[i] == '-';
            assert(crate::text::is_digit(d[i]));
        }
    }
}

/// A text without the separator is one part.
pub proof fn lemma_split_whole(s: Seq<char>, c: char)
    requires
        !s.contains(c),
    ensures
        split_on(s, c) == seq![s],
    decreases s.len(),
{
    if s.len() > 0 {
        assert(!s.drop_last().contains(c)) by {
            if s.drop_last().contains(c) {
                let i = choose|i: int| 0 <= i < s.drop_last().len() && s.drop_last()[i] == c;
                assert(s[i] == c);
            }
        }
        lemma_split_whole(s.drop_last(), c);
        assert(s.last() != c) by {
            assert(s[s.len() - 1] == s.last());
        }
        let q = split_on(s.drop_last(), c);
        assert(q == seq![s.drop_last()]);
        assert(s.drop_last().push(s.last()) =~= s);
        assert(q.update(q.len() - 1, q.last().push(s.last())) =~= seq![s]);
    } else {
        assert(s =~= Seq::<char>::empty());
    }
}

/// Appending a separator and a text without it adds that text as the last part.
pub proof fn lemma_split_append(p: Seq<char>, b: Seq<char>, c: char)
    requires
        !b.contains(c),
    ensures
        split_on(p + seq![c] + b, c) == split_on(p, c).push(b),
    decreases b.len(),
{
    lemma_split_on_len(p, c);
    if b.len() == 0 {
        let t = p + seq![c] + b;
        assert(t =~= p.push(c));
        assert(t.drop_last() =~= p);
        assert(t.last() == c);
        assert(b =~= Seq::<char>::empty());
    } else {
        let b0 = b.drop_last();
        assert(!b0.contains(c)) by {
            if b0.contains(c) {
                let i = choose|i: int| 0 <= i < b0.len() && b0[i] == c;
                assert(b[i] == c);
            }
        }
        lemma_split_append(p, b0, c);
        let t = p + seq![c] + b;
        assert(t.drop_last() =~= p + seq![c] + b0);
        assert(t.last() == b.last());
        assert(b.last() != c) by {
            assert(b[b.len() - 1] == b.last());
        }
        assert(b0.push(b.last()) =~= b);
        let q = split_on(t.drop_last(), c);
        assert(q == split_on(p, c).push(b0));
        assert(q.update(q.len() - 1, q.last().push(t.last())) =~= split_on(p, c).push(b));
    }
}

/// The parts of a written-out SID are `S`, `1`, the authority and each sub-authority.
pub proof fn lemma_sid_parts(authority: nat, subs: Seq<nat>)
    ensures
        split_on(sid_text(authority, subs), '-') == seq![seq!['S'], seq!['1'], crate::text::decimal(
            authority,
        )] + subs.map_values(|n: nat| crate::text::decimal(n)),
    decreases subs.len(),
{
    reveal_strlit("S-1-");
    reveal_strlit("-");
    if subs.len() == 0 {
        let a = crate::text::decimal(authority);
        lemma_decimal_reads_back(authority);
        assert(!seq!['S'].contains('-'));
        assert(!seq!['1'].contains('-'));
        lemma_split_whole(seq!['S'], '-');
        lemma_split_append(seq!['S'], seq!['1'], '-');
        assert(seq!['S'] + seq!['-'] + seq!['1'] =~= seq!['S', '-', '1']);
        lemma_split_append(seq!['S', '-', '1'], a, '-');
        assert(seq!['S', '-', '1'] + seq!['-'] + a =~= "S-1-"@ + a);
        assert(subs.map_values(|n: nat| crate::text::decimal(n)) =~= Seq::<Seq<char>>::empty());
        assert(seq![seq!['S'], seq!['1']].push(a) =~= seq![seq!['S'], seq!['1'], a] + Seq::<
            Seq<char>,
        >::empty());
    } else {
        let rest = subs.drop_last();
        let x = crate::text::decimal(subs.last());
        lemma_decimal_reads_back(subs.last());
        lemma_sid_parts(authority, rest);
        lemma_split_append(sid_text(authority, rest), x, '-');
        assert(sid_text(authority, rest) + seq!['-'] + x =~= sid_text(authority, subs));
        assert(subs.map_values(|n: nat| crate::text::decimal(n)) =~= rest.map_values(
            |n: nat| crate::text::decimal(n),
        ).push(x));
        assert((seq![seq!['S'], seq!['1'], crate::text::decimal(authority)] + rest.map_values(
            |n: nat| crate::text::decimal(n),
        )).push(x) =~= seq![seq!['S'], seq!['1'], crate::text::decimal(authority)] + subs.map_values(
            |n: nat| crate::text::decimal(n),
        ));
    }
}

/// Every Windows SID of the documented shape is accepted: an authority that fits in 64 bits and
/// one to fifteen sub-authorities that each fit in 32 bits (such as the `3623811015` of an
/// ordinary user account); and one whose sub-authority does not fit in 32 bits is not.
pub proof fn lemma_sid_shape(authority: nat, subs: Seq<nat>)
    requires
        authority <= u64::MAX,
        1 <= subs.len() <= 15,
    ensures
        is_sid(sid_text(authority, subs)) <==> forall|i: int|
            0 <= i < subs.len() ==> #[trigger] subs[i] <= u32::MAX,
{
    lemma_sid_parts(authority, subs);
    lemma_decimal_reads_back(authority);
    let p = split_on(sid_text(authority, subs), '-');
    let ds = subs.map_values(|n: nat| crate::text::decimal(n));
    assert(p.len() == subs.len() + 3);
    assert(p[0] == seq!['S'] && p[1] == seq!['1'] && p[2] == crate::text::decimal(authority));
    assert forall|i: int| 3 <= i < p.len() implies p[i] == crate::text::decimal(subs[i - 3]) by {
        assert(p[i] == ds[i - 3]);
    }
    if forall|i: int| 0 <= i < subs.len() ==> #[trigger] subs[i] <= u32::MAX {
        assert forall|i: int| 3 <= i < p.len() implies (#[trigger] parse_unsigned(
            p[i],
            u32::MAX as nat,
        )) is Some by {
            lemma_decimal_reads_back(subs[i - 3]);
            assert(subs[i - 3] <= u32::MAX);
        }
    }
    if is_sid(sid_text(authority, subs)) {
        assert forall|i: int| 0 <= i < subs.len() implies #[trigger] subs[i] <= u32::MAX by {
            lemma_decimal_reads_back(subs[i]);
            assert(parse_unsigned(p[i + 3], u32::MAX as nat) is Some);
        }
    }
}

/// Checks the textual form `S-1-<authority>-<sub>…` of a Windows SID.
pub fn is_valid_sid(sid: &str) -> (r: bool)
    ensures
        r == is_sid(sid@),
{
    let chars = chars_of(sid);
    let parts = split_chars(&chars, '-');
    let ghost p = split_on(sid@, '-');
    assert(forall|i: int| 0 <= i < parts@.len() ==> parts@[i]@ == #[trigger] p[i]);
    let n = parts.len();
    if n < 3 {
        return false;
    }
    let first = &parts[0];
    if !(first.len() == 1 && (first[0] == 'S' || first[0] == 's')) {
        assert(!(p[0] == seq!['S'] || p[0] == seq!['s'])) by {
            if p[0] == seq!['S'] {
                assert(p[0][0] == 'S');
            }
            if p[0] == seq!['s'] {
                assert(p[0][0] == 's');
            }
        }
        return false;
    }
    assert(p[0] == seq!['S'] || p[0] == seq!['s']) by {
        if first[0] == 'S' {
            assert(p[0] =~= seq!['S']);
        } else {
            assert(p[0] =~= seq!['s']);
        }
    }
    let second = &parts[1];
    if !(second.len() == 1 && second[0] == '1') {
        assert(p[1] != seq!['1']) by {
            if p[1] == seq!['1'] {
                assert(p[1][0] == '1');
            }
        }
        return false;
    }
    assert(p[1] =~= seq!['1']);
    assert(parts@[2]@ == p[2]);
    if parse_unsigned_exec(&parts[2], u64::MAX).is_none() {
        return false;
    }
    let subs = n - 3;
    if subs < 1 || subs > 15 {
        return false;
    }
    let mut i: usize = 3;
    while i < n
        invariant
            3 <= i <= n,
            n == parts@.len(),
            n == p.len(),
            p == split_on(sid@, '-'),
            forall|k: int| 0 <= k < parts@.len() ==> parts@[k]@ == #[trigger] p[k],
            forall|k: int| 3 <= k < i ==> (#[trigger] parse_unsigned(p[k], u32::MAX as nat)) is Some,
        decreases n - i,
    {
        assert(parts@[i as int]@ == p[i as int]);
        if parse_unsigned_exec(&parts[i], u32::MAX as u64).is_none() {
            return false;
        }
        i = i + 1;
    }
    true
}


/// Why the schedule part of a configuration is invalid, if it is.
pub open spec fn schedule_problem(days: DaysView) -> Option<Seq<char>> {
    match first_overlapping(days, all_tracks()) {
        Some(t) => Some(overlap_message(t)),
        None => None,
    }
}

/// Why the numbers of a configuration are out of range, if one is: the check interval, then the
/// heads-up lead time.
pub open spec fn numbers_problem(c: ConfigView) -> Option<Seq<char>> {
    if !(1 <= c.check_interval_seconds <= 60) {
        Some("check_interval_seconds must be between 1 and 60."@)
    } else if !(1 <= c.preferences.notify_minutes <= 60) {
        Some("notify_minutes must be between 1 and 60."@)
    } else {
        None
    }
}

/// Why the target SID is missing or invalid, if it is.
pub open spec fn sid_problem(sid: Seq<char>) -> Option<Seq<char>> {
    if trim(sid).len() == 0 {
        Some("target_user_sid is required."@)
    } else if !is_sid(sid) {
        Some("target_user_sid is not a valid Windows security identifier."@)
    } else {
        None
    }
}

/// Why a configuration is invalid apart from its executables, if it is.
pub open spec fn settings_problem(c: ConfigView) -> Option<Seq<char>> {
    if schedule_problem(c.days) is Some {
        schedule_problem(c.days)
    } else if numbers_problem(c) is Some {
        numbers_problem(c)
    } else {
        sid_problem(c.target_user_sid)
    }
}

/// ASCII letters compared without regard to case (`eq_ignore_ascii_case`).
pub open spec fn ascii_lower(c: char) -> char {
    if 'A' <= c <= 'Z' {
        ((c as u32) + 32) as char
    } else {
        c
    }
}

pub open spec fn eq_ignore_ascii_case(a: Seq<char>, b: Seq<char>) -> bool {
    a.len() == b.len() && forall|i: int| 0 <= i < a.len() ==> ascii_lower(a[i]) == ascii_lower(
        b[i],
    )
}

pub fn ascii_lower_char(c: char) -> (r: char)
    ensures
        r == ascii_lower(c),
{
    if 'A' <= c && c <= 'Z' {
        let v: u8 = (c as u32 + 32) as u8;
        v as char
    } else {
        c
    }
}

pub fn eq_ignore_ascii_case_exec(a: &[char], b: &[char]) -> (r: bool)
    ensures
        r == eq_ignore_ascii_case(a@, b@),
{
    if a.len() != b.len() {
        return false;
    }
    for i in 0..a.len()
        invariant
            a@.len() == b@.len(),
            forall|j: int| 0 <= j < i ==> ascii_lower(a@[j]) == ascii_lower(b@[j]),
    {
        if ascii_lower_char(a[i]) != ascii_lower_char(b[i]) {
            return false;
        }
    }
    true
}

/// Why `path` cannot be a configured executable, given what the platform's path rules say of it:
/// whether it is absolute, its extension and its file name.
pub open spec fn executable_problem(
    path: Seq<char>,
    absolute: bool,
    extension: Option<Seq<char>>,
    file_name: Option<Seq<char>>,
) -> Option<Seq<char>> {
    let is_exe = match extension {
        Some(e) => eq_ignore_ascii_case(e, "exe"@),
        None => false,
    };
    let name = match file_name {
        Some(n) => n,
        None => Seq::empty(),
    };
    if !absolute || !is_exe {
        Some("Invalid executable path '"@ + path + "'. Choose an absolute .exe path."@)
    } else if path.contains('?') || name.contains('*') {
        Some("Invalid executable path '"@ + path + "'. Only folder names may contain '*'."@)
    } else {
        None
    }
}

/// Why `path` cannot be a configured executable, as Windows reads it.
pub open spec fn executable_check(path: Seq<char>) -> Option<Seq<char>> {
    executable_problem(
        path,
        crate::winpath::win_is_absolute(path),
        crate::winpath::win_extension(path),
        crate::winpath::win_file_name(path),
    )
}

/// The problem of the first executable that has one.
pub open spec fn first_executable_problem(paths: Seq<Seq<char>>) -> Option<Seq<char>>
    decreases paths.len(),
{
    if paths.len() == 0 {
        None
    } else if executable_check(paths[0]) is Some {
        executable_check(paths[0])
    } else {
        first_executable_problem(paths.drop_first())
    }
}

/// Why a configuration is invalid: its settings first, then its executables in order.
pub open spec fn config_problem(c: ConfigView) -> Option<Seq<char>> {
    if settings_problem(c) is Some {
        settings_problem(c)
    } else {
        first_executable_problem(c.executables)
    }
}

/// Why a configuration is invalid as far as it can be checked before the target SID is known:
/// everything `config_problem` checks, in the same order, except the SID.
pub open spec fn unsealed_problem(c: ConfigView) -> Option<Seq<char>> {
    if schedule_problem(c.days) is Some {
        schedule_problem(c.days)
    } else if numbers_problem(c) is Some {
        numbers_problem(c)
    } else {
        first_executable_problem(c.executables)
    }
}

/// No executable has a problem exactly when each of them is a valid executable path.
pub proof fn lemma_no_executable_problem(paths: Seq<Seq<char>>)
    ensures
        first_executable_problem(paths) is None <==> forall|i: int|
            0 <= i < paths.len() ==> (#[trigger] executable_check(paths[i])) is None,
    decreases paths.len(),
{
    if paths.len() > 0 {
        lemma_no_executable_problem(paths.drop_first());
        if first_executable_problem(paths) is None {
            assert forall|i: int| 0 <= i < paths.len() implies (#[trigger] executable_check(
                paths[i],
            )) is None by {
                if i > 0 {
                    assert(paths[i] == paths.drop_first()[i - 1]);
                }
            }
        } else if executable_check(paths[0]) is None {
            let j = choose|j: int|
                0 <= j < paths.drop_first().len() && (#[trigger] executable_check(
                    paths.drop_first()[j],
                )) is Some;
            assert(executable_check(paths[j + 1]) is Some);
        }
    }
}

/// A configuration passes the checks made before the SID is known exactly when no two blocks
/// of a lane overlap, both numbers are in `1..=60` and every executable is a valid path; the SID
/// plays no part.
pub proof fn lemma_unsealed_checks(c: ConfigView, sid: Seq<char>)
    ensures
        unsealed_problem(c) is None <==> {
            &&& schedule_problem(c.days) is None
            &&& 1 <= c.check_interval_seconds <= 60
            &&& 1 <= c.preferences.notify_minutes <= 60
            &&& forall|i: int|
                0 <= i < c.executables.len() ==> (#[trigger] executable_check(c.executables[i])) is None
        },
        unsealed_problem(c) == unsealed_problem(ConfigView { target_user_sid: sid, ..c }),
{
    lemma_no_executable_problem(c.executables);
}

/// A configuration is valid exactly when it passes the checks made before the SID is known and
/// its SID is a valid Windows security identifier.
pub proof fn lemma_config_checks(c: ConfigView)
    ensures
        config_problem(c) is None <==> (unsealed_problem(c) is None && sid_problem(
            c.target_user_sid,
        ) is None),
{
    lemma_no_executable_problem(c.executables);
}

pub open spec fn problem_result(r: Result<(), String>, problem: Option<Seq<char>>) -> bool {
    match r {
        Ok(()) => problem is None,
        Err(e) => problem == Some(e@),
    }
}

/// Decides whether `path` can be a configured executable from what the platform's path rules
/// say of it.
pub fn check_executable(
    path: &str,
    absolute: bool,
    extension: Option<&str>,
    file_name: Option<&str>,
) -> (r: Result<(), String>)
    ensures
        problem_result(
            r,
            executable_problem(
                path@,
                absolute,
                match extension {
                    Some(e) => Some(e@),
                    None => None,
                },
                match file_name {
                    Some(n) => Some(n@),
                    None => None,
                },
            ),
        ),
{
    let is_exe = match extension {
        Some(e) => {
            let ec = chars_of(e);
            let exe = chars_of("exe");
            proof {
                reveal_strlit("exe");
            }
            eq_ignore_ascii_case_exec(&ec, &exe)
        },
        None => false,
    };
    if !absolute || !is_exe {
        let mut e = String::from_str("Invalid executable path '");
        e.append(path);
        e.append("'. Choose an absolute .exe path.");
        return Err(e);
    }
    let pc = chars_of(path);
    let has_question = crate::text::find_char(&pc, '?').is_some();
    let star_in_name = match file_name {
        Some(n) => crate::text::find_char(&chars_of(n), '*').is_some(),
        None => false,
    };
    if has_question || star_in_name {
        let mut e = String::from_str("Invalid executable path '");
        e.append(path);
        e.append("'. Only folder names may contain '*'.");
        return Err(e);
    }
    Ok(())
}

/// Checks that `path` names an executable by an absolute path, with `*` only in folder names.
pub fn validate_executable(path: &str) -> (r: Result<(), String>)
    ensures
        problem_result(r, executable_check(path@)),
{
    let absolute = crate::winpath::is_absolute(path);
    let extension = crate::winpath::extension(path);
    let file_name = crate::winpath::file_name(path);
    check_executable(
        path,
        absolute,
        match &extension {
            Some(e) => Some(e.as_str()),
            None => None,
        },
        match &file_name {
            Some(n) => Some(n.as_str()),
            None => None,
        },
    )
}

/// Why two blocks of a lane overlap, if they do: the first lane, in the order of `Track`, that
/// has such blocks.
fn check_lanes(days: &Days) -> (r: Result<(), String>)
    requires
        days@.wf(),
    ensures
        problem_result(r, schedule_problem(days@)),
{
    let tracks = [
        Track::EveryDay,
        Track::Weekday,
        Track::Weekend,
        Track::Monday,
        Track::Tuesday,
        Track::Wednesday,
        Track::Thursday,
        Track::Friday,
        Track::Saturday,
        Track::Sunday,
    ];
    assert(tracks@ == all_tracks());
    for k in 0..10
        invariant
            tracks@ == all_tracks(),
            days@.wf(),
            forall|j: int| 0 <= j < k ==> lane_is_free(days@.get(#[trigger] tracks@[j]).blocks),
    {
        let track = tracks[k];
        let day = days.get(track);
        assert(all_wf(day.blocks@)) by {
            assert(all_wf(days@.get(track).blocks));
        }
        if !lane_free(day.blocks.as_slice()) {
            proof {
                lemma_first_overlapping(days@, all_tracks(), k as int);
            }
            let mut e = String::from_str("Two blocks overlap on ");
            e.append(track.name());
            e.append(".");
            return Err(e);
        }
    }
    proof {
        lemma_first_overlapping(days@, all_tracks(), 10);
    }
    Ok(())
}

/// Checks the check interval and the heads-up lead time.
fn check_numbers(c: &Config) -> (r: Result<(), String>)
    ensures
        problem_result(r, numbers_problem(c@)),
{
    if !(1 <= c.check_interval_seconds && c.check_interval_seconds <= 60) {
        return Err(String::from_str("check_interval_seconds must be between 1 and 60."));
    }
    if !(1 <= c.preferences.notify_minutes && c.preferences.notify_minutes <= 60) {
        return Err(String::from_str("notify_minutes must be between 1 and 60."));
    }
    Ok(())
}

/// Checks each executable in order; the first invalid one gives the error.
fn check_executables(executables: &Vec<String>) -> (r: Result<(), String>)
    ensures
        problem_result(r, first_executable_problem(texts(executables@))),
{
    let n = executables.len();
    let ghost ex = texts(executables@);
    assert(ex.subrange(0, n as int) == ex);
    for i in 0..n
        invariant
            n == executables@.len(),
            ex == texts(executables@),
            first_executable_problem(ex) == first_executable_problem(ex.subrange(i as int, n as int)),
    {
        let r = validate_executable(executables[i].as_str());
        assert(ex[i as int] == executables@[i as int]@);
        assert(ex.subrange(i as int, n as int)[0] == ex[i as int]);
        assert(ex.subrange(i as int, n as int).drop_first() == ex.subrange(i + 1, n as int));
        match r {
            Ok(()) => {},
            Err(e) => {
                return Err(e);
            },
        }
    }
    assert(ex.subrange(n as int, n as int).len() == 0);
    Ok(())
}

impl Config {
    /// Checks everything except the target SID, which is only known once installed.
    pub fn validate_schedule(&self) -> (r: Result<(), String>)
        requires
            self.days@.wf(),
        ensures
            problem_result(r, unsealed_problem(self@)),
    {
        match check_lanes(&self.days) {
            Ok(()) => {},
            Err(e) => {
                return Err(e);
            },
        }
        match check_numbers(self) {
            Ok(()) => {},
            Err(e) => {
                return Err(e);
            },
        }
        check_executables(&self.executables)
    }

    pub fn validate(&self) -> (r: Result<(), String>)
        requires
            self.days@.wf(),
        ensures
            problem_result(r, config_problem(self@)),
    {
        match check_lanes(&self.days) {
            Ok(()) => {},
            Err(e) => {
                return Err(e);
            },
        }
        match check_numbers(self) {
            Ok(()) => {},
            Err(e) => {
                return Err(e);
            },
        }
        let sid_chars = chars_of(self.target_user_sid.as_str());
        if trim_chars(&sid_chars).len() == 0 {
            return Err(String::from_str("target_user_sid is required."));
        }
        if !is_valid_sid(self.target_user_sid.as_str()) {
            return Err(
                String::from_str("target_user_sid is not a valid Windows security identifier."),
            );
        }
        check_executables(&self.executables)
    }
}


/// A value of a version 2 configuration file, as far as migration reads it.
pub enum LegacyValue {
    /// A JSON string.
    Text(String),
    /// A JSON boolean.
    Flag(bool),
    /// A JSON number that is a whole number from 0 to `u64::MAX`.
    Whole(u64),
    /// A JSON array, with the strings among its items (`None` for an item of another kind).
    List(Vec<Option<String>>),
    /// Anything else: null, an object, another number.
    Other,
}

pub enum LegacyValueView {
    Text(Seq<char>),
    Flag(bool),
    Whole(u64),
    List(Seq<Option<Seq<char>>>),
    Other,
}

impl View for LegacyValue {
    type V = LegacyValueView;

    open spec fn view(&self) -> LegacyValueView {
        match self {
            LegacyValue::Text(s) => LegacyValueView::Text(s@),
            LegacyValue::Flag(b) => LegacyValueView::Flag(*b),
            LegacyValue::Whole(n) => LegacyValueView::Whole(*n),
            LegacyValue::List(items) => LegacyValueView::List(
                items@.map_values(|o: Option<String>| opt_text(o)),
            ),
            LegacyValue::Other => LegacyValueView::Other,
        }
    }
}

/// The top-level entries of a version 2 configuration file (an object), by key.
pub struct LegacyDocument {
    pub entries: Vec<(String, LegacyValue)>,
}

impl View for LegacyDocument {
    type V = Seq<(Seq<char>, LegacyValueView)>;

    open spec fn view(&self) -> Seq<(Seq<char>, LegacyValueView)> {
        self.entries@.map_values(|e: (String, LegacyValue)| (e.0@, e.1@))
    }
}

/// The value stored under `key` (the first entry with that key).
pub open spec fn doc_get(d: Seq<(Seq<char>, LegacyValueView)>, key: Seq<char>) -> Option<
    LegacyValueView,
>
    decreases d.len(),
{
    if d.len() == 0 {
        None
    } else if d[0].0 == key {
        Some(d[0].1)
    } else {
        doc_get(d.drop_first(), key)
    }
}

pub open spec fn doc_text(d: Seq<(Seq<char>, LegacyValueView)>, key: Seq<char>) -> Option<Seq<char>> {
    match doc_get(d, key) {
        Some(LegacyValueView::Text(s)) => Some(s),
        _ => None,
    }
}

pub open spec fn text_or(d: Seq<(Seq<char>, LegacyValueView)>, key: Seq<char>, default: Seq<char>) -> Seq<char> {
    match doc_text(d, key) {
        Some(s) => s,
        None => default,
    }
}

/// A yes/no entry; anything but a boolean gives `default`.
pub open spec fn doc_flag(d: Seq<(Seq<char>, LegacyValueView)>, key: Seq<char>, default: bool) -> bool {
    match doc_get(d, key) {
        Some(LegacyValueView::Flag(b)) => b,
        _ => default,
    }
}

pub open spec fn doc_whole(d: Seq<(Seq<char>, LegacyValueView)>, key: Seq<char>, default: u64) -> u64 {
    match doc_get(d, key) {
        Some(LegacyValueView::Whole(n)) => n,
        _ => default,
    }
}

pub open spec fn doc_policy(d: Seq<(Seq<char>, LegacyValueView)>, key: Seq<char>) -> Result<
    Policy,
    Seq<char>,
> {
    match doc_text(d, key) {
        None => Ok(Policy::Always),
        Some(s) => if s == "Always"@ {
            Ok(Policy::Always)
        } else if s == "Never"@ {
            Ok(Policy::Never)
        } else if s == "AllowedHoursOnly"@ {
            Ok(Policy::AllowedHoursOnly)
        } else {
            Err(key + " has an invalid value."@)
        },
    }
}

pub open spec fn doc_mode(d: Seq<(Seq<char>, LegacyValueView)>) -> Result<ScheduleMode, Seq<char>> {
    match doc_text(d, "ScheduleMode"@) {
        None => Ok(ScheduleMode::EveryDay),
        Some(s) => if s == "EveryDay"@ {
            Ok(ScheduleMode::EveryDay)
        } else if s == "WeekdayWeekend"@ {
            Ok(ScheduleMode::WeekdayWeekend)
        } else if s == "IndividualDays"@ {
            Ok(ScheduleMode::IndividualDays)
        } else {
            Err("ScheduleMode must be 'EveryDay', 'WeekdayWeekend', or 'IndividualDays'."@)
        },
    }
}

/// One lane of a version 2 file: one block from `start` to `end`, or none when they are equal
/// and the day is off.
pub open spec fn migrated_day(name: Seq<char>, start: Seq<char>, end: Seq<char>, enabled: bool) -> Result<
    DayScheduleView,
    Seq<char>,
> {
    match crate::time::hhmm_value(start, false) {
        None => Err(crate::time::invalid_time_message(start)),
        Some(s) => match crate::time::hhmm_value(end, false) {
            None => Err(crate::time::invalid_time_message(end)),
            Some(e) => if s == e {
                if enabled {
                    Err(name + " start and end times must be different."@)
                } else {
                    Ok(DayScheduleView { enabled, blocks: Seq::empty() })
                }
            } else {
                match new_block(s as int, e as int) {
                    Ok(b) => Ok(DayScheduleView { enabled, blocks: seq![b] }),
                    Err(m) => Err(m),
                }
            },
        },
    }
}

pub open spec fn legacy_block_start(d: Seq<(Seq<char>, LegacyValueView)>) -> Seq<char> {
    text_or(d, "BlockStart"@, "23:00"@)
}

pub open spec fn legacy_block_end(d: Seq<(Seq<char>, LegacyValueView)>) -> Seq<char> {
    text_or(d, "BlockEnd"@, "07:00"@)
}

/// The start and end an individual day falls back on: the weekday or the weekend range, which
/// fall back on the every-day range.
pub open spec fn legacy_group_range(d: Seq<(Seq<char>, LegacyValueView)>, weekend: bool) -> (Seq<char>, Seq<char>) {
    if weekend {
        (
            text_or(d, "WeekendBlockStart"@, legacy_block_start(d)),
            text_or(d, "WeekendBlockEnd"@, legacy_block_end(d)),
        )
    } else {
        (
            text_or(d, "WeekdayBlockStart"@, legacy_block_start(d)),
            text_or(d, "WeekdayBlockEnd"@, legacy_block_end(d)),
        )
    }
}

pub open spec fn migrated_individual(
    d: Seq<(Seq<char>, LegacyValueView)>,
    prefix: Seq<char>,
    weekend: bool,
) -> Result<DayScheduleView, Seq<char>> {
    let (ds, de) = legacy_group_range(d, weekend);
    migrated_day(
        prefix,
        text_or(d, prefix + "BlockStart"@, ds),
        text_or(d, prefix + "BlockEnd"@, de),
        doc_flag(d, prefix + "Enabled"@, true),
    )
}

/// The ten lanes of a migrated schedule, in the order they are read.
pub open spec fn migrated_days(d: Seq<(Seq<char>, LegacyValueView)>) -> Seq<
    Result<DayScheduleView, Seq<char>>,
> {
    let weekday = legacy_group_range(d, false);
    let weekend = legacy_group_range(d, true);
    seq![
        migrated_day("Every-day"@, legacy_block_start(d), legacy_block_end(d), true),
        migrated_day("Weekday"@, weekday.0, weekday.1, doc_flag(d, "WeekdayEnabled"@, true)),
        migrated_day("Weekend"@, weekend.0, weekend.1, doc_flag(d, "WeekendEnabled"@, true)),
        migrated_individual(d, "Monday"@, false),
        migrated_individual(d, "Tuesday"@, false),
        migrated_individual(d, "Wednesday"@, false),
        migrated_individual(d, "Thursday"@, false),
        migrated_individual(d, "Friday"@, false),
        migrated_individual(d, "Saturday"@, true),
        migrated_individual(d, "Sunday"@, true),
    ]
}

/// The four lock choices of a migrated file, in the order they are read.
pub open spec fn migrated_policies(d: Seq<(Seq<char>, LegacyValueView)>) -> Seq<
    Result<Policy, Seq<char>>,
> {
    seq![
        doc_policy(d, "ChangeTimesPolicy"@),
        doc_policy(d, "TurnOffProtectionPolicy"@),
        doc_policy(d, "UninstallPolicy"@),
        doc_policy(d, "RemoveExecutablesPolicy"@),
    ]
}

/// The lanes, from the ten results of `migrated_days` when none failed.
pub open spec fn days_of(days: Seq<Result<DayScheduleView, Seq<char>>>) -> DaysView {
    DaysView {
        every_day: days[0]->Ok_0,
        weekday: days[1]->Ok_0,
        weekend: days[2]->Ok_0,
        monday: days[3]->Ok_0,
        tuesday: days[4]->Ok_0,
        wednesday: days[5]->Ok_0,
        thursday: days[6]->Ok_0,
        friday: days[7]->Ok_0,
        saturday: days[8]->Ok_0,
        sunday: days[9]->Ok_0,
    }
}

/// The lock choices, from the four results of `migrated_policies` when none failed; the choices
/// themselves stay locked.
pub open spec fn policies_of(pols: Seq<Result<Policy, Seq<char>>>) -> Policies {
    Policies {
        change_times: pols[0]->Ok_0,
        turn_off: pols[1]->Ok_0,
        uninstall: pols[2]->Ok_0,
        remove_executables: pols[3]->Ok_0,
        change_locks: Policy::Never,
    }
}

/// The first error among results read in order.
pub open spec fn first_error<T>(s: Seq<Result<T, Seq<char>>>) -> Option<Seq<char>>
    decreases s.len(),
{
    if s.len() == 0 {
        None
    } else {
        match s[0] {
            Err(e) => Some(e),
            Ok(_) => first_error(s.drop_first()),
        }
    }
}

/// The strings among a list's items, in order.
pub open spec fn strings_of(items: Seq<Option<Seq<char>>>) -> Seq<Seq<char>>
    decreases items.len(),
{
    if items.len() == 0 {
        Seq::empty()
    } else {
        match items.last() {
            Some(s) => strings_of(items.drop_last()).push(s),
            None => strings_of(items.drop_last()),
        }
    }
}

pub open spec fn migrated_executables(d: Seq<(Seq<char>, LegacyValueView)>) -> Seq<Seq<char>> {
    match doc_get(d, "Executables"@) {
        Some(LegacyValueView::List(items)) => strings_of(items),
        Some(LegacyValueView::Text(s)) => seq![s],
        _ => Seq::empty(),
    }
}

/// The configuration a version 2 file becomes, or why it cannot.
pub open spec fn migrated(d: Seq<(Seq<char>, LegacyValueView)>) -> Result<ConfigView, Seq<char>> {
    let days = migrated_days(d);
    let pols = migrated_policies(d);
    match doc_mode(d) {
        Err(m) => Err(m),
        Ok(mode) => if first_error(days) is Some {
            Err(first_error(days)->0)
        } else if first_error(pols) is Some {
            Err(first_error(pols)->0)
        } else {
            Ok(
                ConfigView {
                    version: CONFIG_VERSION,
                    setup_completed: doc_flag(d, "SetupCompleted"@, false) && doc_whole(
                        d,
                        "SetupVersion"@,
                        0,
                    ) >= 2,
                    schedule_mode: mode,
                    days: days_of(days),
                    policies: policies_of(pols),
                    executables: migrated_executables(d),
                    target_user_sid: text_or(d, "TargetUserSid"@, Seq::empty()),
                    check_interval_seconds: doc_whole(d, "CheckIntervalSeconds"@, 2) as u32,
                    shortcuts: Shortcuts { start_menu: true, desktop: false },
                    preferences: default_preferences(),
                },
            )
        },
    }
}

/// How a version 2 file spells a lock choice.
pub open spec fn legacy_policy_word(p: Policy) -> Seq<char> {
    match p {
        Policy::Always => "Always"@,
        Policy::Never => "Never"@,
        Policy::AllowedHoursOnly => "AllowedHoursOnly"@,
    }
}

/// Whether `chosen` is the lock a version 2 file records under `key`: the choice it spells
/// there, or "Yes — anytime" where it records none as text.
pub open spec fn reads_lock(d: Seq<(Seq<char>, LegacyValueView)>, key: Seq<char>, chosen: Policy) -> bool {
    &&& forall|p: Policy|
        doc_get(d, key) == Some(LegacyValueView::Text(#[trigger] legacy_policy_word(p))) ==> chosen == p
    &&& !(doc_get(d, key) matches Some(LegacyValueView::Text(_))) ==> chosen == Policy::Always
}

proof fn lemma_reads_lock(d: Seq<(Seq<char>, LegacyValueView)>, key: Seq<char>)
    requires
        doc_policy(d, key) is Ok,
    ensures
        reads_lock(d, key, doc_policy(d, key)->Ok_0),
{
    reveal_strlit("Always");
    reveal_strlit("Never");
    reveal_strlit("AllowedHoursOnly");
    assert forall|p: Policy|
        doc_get(d, key) == Some(LegacyValueView::Text(#[trigger] legacy_policy_word(p))) implies doc_policy(
        d,
        key,
    )->Ok_0 == p by {
        assert(doc_text(d, key) == Some(legacy_policy_word(p)));
        match p {
            Policy::Always => {},
            Policy::Never => {
                assert("Never"@.len() != "Always"@.len());
            },
            Policy::AllowedHoursOnly => {
                assert("AllowedHoursOnly"@.len() != "Always"@.len());
                assert("AllowedHoursOnly"@.len() != "Never"@.len());
            },
        }
    }
}

/// Migration reads each lock choice from its own version 2 key: `ChangeTimesPolicy`,
/// `TurnOffProtectionPolicy`, `UninstallPolicy` and `RemoveExecutablesPolicy` give the four
/// locks as spelled there (a missing one stays "Yes — anytime"), and the lock choices themselves
/// come out locked. A key spelling no choice makes migration fail.
pub proof fn lemma_migration_reads_each_lock(d: Seq<(Seq<char>, LegacyValueView)>)
    ensures
        migrated(d) matches Ok(c) ==> {
            &&& reads_lock(d, "ChangeTimesPolicy"@, c.policies.change_times)
            &&& reads_lock(d, "TurnOffProtectionPolicy"@, c.policies.turn_off)
            &&& reads_lock(d, "UninstallPolicy"@, c.policies.uninstall)
            &&& reads_lock(d, "RemoveExecutablesPolicy"@, c.policies.remove_executables)
            &&& c.policies.change_locks == Policy::Never
        },
        forall|key: Seq<char>|
            #![trigger doc_get(d, key)]
            (key == "ChangeTimesPolicy"@ || key == "TurnOffProtectionPolicy"@ || key
                == "UninstallPolicy"@ || key == "RemoveExecutablesPolicy"@) && (doc_get(d, key) matches Some(
                LegacyValueView::Text(s),
            ) && forall|p: Policy| s != #[trigger] legacy_policy_word(p)) ==> migrated(d) is Err,
{
    reveal_strlit("Always");
    reveal_strlit("Never");
    reveal_strlit("AllowedHoursOnly");
    let pols = migrated_policies(d);
    if migrated(d) is Ok {
        lemma_no_error(pols, 0);
        lemma_no_error(pols, 1);
        lemma_no_error(pols, 2);
        lemma_no_error(pols, 3);
        lemma_reads_lock(d, "ChangeTimesPolicy"@);
        lemma_reads_lock(d, "TurnOffProtectionPolicy"@);
        lemma_reads_lock(d, "UninstallPolicy"@);
        lemma_reads_lock(d, "RemoveExecutablesPolicy"@);
    }
    assert forall|key: Seq<char>|
        #![trigger doc_get(d, key)]
        (key == "ChangeTimesPolicy"@ || key == "TurnOffProtectionPolicy"@ || key == "UninstallPolicy"@
            || key == "RemoveExecutablesPolicy"@) && (doc_get(d, key) matches Some(
            LegacyValueView::Text(s),
        ) && forall|p: Policy| s != #[trigger] legacy_policy_word(p)) implies migrated(d) is Err by {
        let s = doc_text(d, key)->0;
        assert(s != legacy_policy_word(Policy::Always));
        assert(s != legacy_policy_word(Policy::Never));
        assert(s != legacy_policy_word(Policy::AllowedHoursOnly));
        if migrated(d) is Ok {
            lemma_no_error(pols, 0);
            lemma_no_error(pols, 1);
            lemma_no_error(pols, 2);
            lemma_no_error(pols, 3);
        }
    }
}

/// Whether two strings hold the same characters.
pub fn same_text(a: &str, b: &str) -> (r: bool)
    ensures
        r == (a@ == b@),
{
    let ac = chars_of(a);
    let bc = chars_of(b);
    if ac.len() != bc.len() {
        return false;
    }
    for i in 0..ac.len()
        invariant
            ac@ == a@,
            bc@ == b@,
            ac@.len() == bc@.len(),
            forall|j: int| 0 <= j < i ==> ac@[j] == bc@[j],
    {
        if ac[i] != bc[i] {
            return false;
        }
    }
    assert(ac@ =~= bc@);
    true
}

pub proof fn lemma_doc_get_skip(d: Seq<(Seq<char>, LegacyValueView)>, key: Seq<char>, i: int)
    requires
        0 <= i <= d.len(),
        forall|j: int| 0 <= j < i ==> (#[trigger] d[j]).0 != key,
    ensures
        doc_get(d, key) == doc_get(d.subrange(i, d.len() as int), key),
    decreases i,
{
    if i > 0 {
        let t = d.drop_first();
        assert forall|j: int| 0 <= j < i - 1 implies (#[trigger] t[j]).0 != key by {
            assert(t[j] == d[j + 1]);
        }
        lemma_doc_get_skip(t, key, i - 1);
        assert(t.subrange(i - 1, t.len() as int) == d.subrange(i, d.len() as int));
    } else {
        assert(d.subrange(0, d.len() as int) == d);
    }
}

impl LegacyDocument {
    /// The value stored under `key`.
    pub fn get(&self, key: &str) -> (r: Option<&LegacyValue>)
        ensures
            match r {
                Some(v) => doc_get(self@, key@) == Some(v@),
                None => doc_get(self@, key@) is None,
            },
    {
        let n = self.entries.len();
        for i in 0..n
            invariant
                n == self@.len(),
                forall|j: int| 0 <= j < i ==> (#[trigger] self@[j]).0 != key@,
        {
            if same_text(self.entries[i].0.as_str(), key) {
                proof {
                    lemma_doc_get_skip(self@, key@, i as int);
                    assert(self@.subrange(i as int, n as int)[0] == self@[i as int]);
                }
                return Some(&self.entries[i].1);
            }
        }
        proof {
            lemma_doc_get_skip(self@, key@, n as int);
        }
        None
    }

    pub fn text(&self, key: &str) -> (r: Option<String>)
        ensures
            opt_text(r) == doc_text(self@, key@),
    {
        match self.get(key) {
            Some(LegacyValue::Text(s)) => Some(s.clone()),
            _ => None,
        }
    }

    pub fn text_or(&self, key: &str, default: &str) -> (r: String)
        ensures
            r@ == text_or(self@, key@, default@),
    {
        match self.text(key) {
            Some(s) => s,
            None => String::from_str(default),
        }
    }

    pub fn flag(&self, key: &str, default: bool) -> (r: bool)
        ensures
            r == doc_flag(self@, key@, default),
    {
        match self.get(key) {
            Some(LegacyValue::Flag(b)) => *b,
            _ => default,
        }
    }

    pub fn whole(&self, key: &str, default: u64) -> (r: u64)
        ensures
            r == doc_whole(self@, key@, default),
    {
        match self.get(key) {
            Some(LegacyValue::Whole(n)) => *n,
            _ => default,
        }
    }

    pub fn policy(&self, key: &str) -> (r: Result<Policy, String>)
        ensures
            match r {
                Ok(p) => doc_policy(self@, key@) == Ok::<Policy, Seq<char>>(p),
                Err(e) => doc_policy(self@, key@) == Err::<Policy, Seq<char>>(e@),
            },
    {
        match self.text(key) {
            None => Ok(Policy::Always),
            Some(s) => {
                if same_text(s.as_str(), "Always") {
                    Ok(Policy::Always)
                } else if same_text(s.as_str(), "Never") {
                    Ok(Policy::Never)
                } else if same_text(s.as_str(), "AllowedHoursOnly") {
                    Ok(Policy::AllowedHoursOnly)
                } else {
                    let mut e = String::from_str(key);
                    e.append(" has an invalid value.");
                    Err(e)
                }
            },
        }
    }

    pub fn executables(&self) -> (r: Vec<String>)
        ensures
            texts(r@) == migrated_executables(self@),
    {
        match self.get("Executables") {
            Some(LegacyValue::List(items)) => {
                let mut r: Vec<String> = Vec::new();
                let ghost iv = items@.map_values(|o: Option<String>| opt_text(o));
                for i in 0..items.len()
                    invariant
                        iv == items@.map_values(|o: Option<String>| opt_text(o)),
                        texts(r@) == strings_of(iv.take(i as int)),
                {
                    proof {
                        assert(iv.take(i + 1).drop_last() == iv.take(i as int));
                        assert(iv.take(i + 1).last() == opt_text(items@[i as int]));
                    }
                    match &items[i] {
                        Some(s) => {
                            r.push(s.clone());
                            assert(texts(r@) =~= strings_of(iv.take(i + 1)));
                        },
                        None => {},
                    }
                }
                assert(iv.take(items@.len() as int) == iv);
                r
            },
            Some(LegacyValue::Text(s)) => {
                let mut r: Vec<String> = Vec::new();
                r.push(s.clone());
                assert(texts(r@) =~= seq![s@]);
                r
            },
            _ => {
                let r: Vec<String> = Vec::new();
                assert(texts(r@) =~= Seq::<Seq<char>>::empty());
                r
            },
        }
    }
}

/// One lane of a version 2 file.
fn migrate_day(name: &str, start: &str, end: &str, enabled: bool) -> (r: Result<DaySchedule, String>)
    ensures
        match r {
            Ok(d) => migrated_day(name@, start@, end@, enabled) == Ok::<DayScheduleView, Seq<char>>(d@),
            Err(e) => migrated_day(name@, start@, end@, enabled) == Err::<DayScheduleView, Seq<char>>(e@),
        },
{
    let s = match crate::time::parse_hhmm(start, false) {
        Ok(v) => v,
        Err(e) => {
            return Err(e);
        },
    };
    let e = match crate::time::parse_hhmm(end, false) {
        Ok(v) => v,
        Err(e) => {
            return Err(e);
        },
    };
    if s == e {
        if enabled {
            let mut m = String::from_str(name);
            m.append(" start and end times must be different.");
            return Err(m);
        }
        let d = DaySchedule { enabled, blocks: Vec::new() };
        assert(d@.blocks =~= Seq::<Block>::empty());
        return Ok(d);
    }
    match Block::new(s, e) {
        Ok(b) => {
            let mut blocks: Vec<Block> = Vec::new();
            blocks.push(b);
            let d = DaySchedule { enabled, blocks };
            assert(d@.blocks =~= seq![b]);
            Ok(d)
        },
        Err(m) => Err(m),
    }
}

/// One individual day of a version 2 file, falling back on its group's range.
fn migrate_individual(doc: &LegacyDocument, prefix: &str, group_start: &str, group_end: &str) -> (r:
    Result<DaySchedule, String>)
    ensures
        match r {
            Ok(d) => migrated_day(
                prefix@,
                text_or(doc@, prefix@ + "BlockStart"@, group_start@),
                text_or(doc@, prefix@ + "BlockEnd"@, group_end@),
                doc_flag(doc@, prefix@ + "Enabled"@, true),
            ) == Ok::<DayScheduleView, Seq<char>>(d@),
            Err(e) => migrated_day(
                prefix@,
                text_or(doc@, prefix@ + "BlockStart"@, group_start@),
                text_or(doc@, prefix@ + "BlockEnd"@, group_end@),
                doc_flag(doc@, prefix@ + "Enabled"@, true),
            ) == Err::<DayScheduleView, Seq<char>>(e@),
        },
{
    let mut start_key = String::from_str(prefix);
    start_key.append("BlockStart");
    let mut end_key = String::from_str(prefix);
    end_key.append("BlockEnd");
    let mut enabled_key = String::from_str(prefix);
    enabled_key.append("Enabled");
    let start = doc.text_or(start_key.as_str(), group_start);
    let end = doc.text_or(end_key.as_str(), group_end);
    let enabled = doc.flag(enabled_key.as_str(), true);
    migrate_day(prefix, start.as_str(), end.as_str(), enabled)
}


pub proof fn lemma_first_error<T>(s: Seq<Result<T, Seq<char>>>, k: int)
    requires
        0 <= k <= s.len(),
        forall|j: int| 0 <= j < k ==> (#[trigger] s[j]) is Ok,
    ensures
        k == s.len() ==> first_error(s) is None,
        k < s.len() && s[k] is Err ==> first_error(s) == Some(s[k]->Err_0),
    decreases k,
{
    if k > 0 {
        let t = s.drop_first();
        assert forall|j: int| 0 <= j < k - 1 implies (#[trigger] t[j]) is Ok by {
            assert(t[j] == s[j + 1]);
        }
        assert(s[0] is Ok);
        lemma_first_error(t, k - 1);
        if k < s.len() {
            assert(t[k - 1] == s[k]);
        }
    }
}

/// The ten lanes of a version 2 file.
#[verifier::spinoff_prover]
#[verifier::rlimit(50)]
fn migrate_days(v: &LegacyDocument) -> (r: Result<Days, String>)
    ensures
        match r {
            Ok(days) => first_error(migrated_days(v@)) is None && days@ == days_of(migrated_days(v@)),
            Err(e) => first_error(migrated_days(v@)) == Some(e@),
        },
{
    let ghost d = v@;
    let ghost days = migrated_days(d);
    let block_start = v.text_or("BlockStart", "23:00");
    let block_end = v.text_or("BlockEnd", "07:00");
    let weekday_start = v.text_or("WeekdayBlockStart", block_start.as_str());
    let weekday_end = v.text_or("WeekdayBlockEnd", block_end.as_str());
    let weekend_start = v.text_or("WeekendBlockStart", block_start.as_str());
    let weekend_end = v.text_or("WeekendBlockEnd", block_end.as_str());
    assert(block_start@ == legacy_block_start(d));
    assert(block_end@ == legacy_block_end(d));
    assert((weekday_start@, weekday_end@) == legacy_group_range(d, false));
    assert((weekend_start@, weekend_end@) == legacy_group_range(d, true));

    let every_day = migrate_day("Every-day", block_start.as_str(), block_end.as_str(), true);
    let every_day = match every_day { Ok(x) => x, Err(e) => { proof { lemma_first_error(days, 0); } return Err(e); } };
    assert(days[0] == Ok::<DayScheduleView, Seq<char>>(every_day@));
    let weekday = migrate_day("Weekday", weekday_start.as_str(), weekday_end.as_str(), v.flag("WeekdayEnabled", true));
    let weekday = match weekday { Ok(x) => x, Err(e) => { proof { lemma_first_error(days, 1); } return Err(e); } };
    assert(days[1] == Ok::<DayScheduleView, Seq<char>>(weekday@));
    let weekend = migrate_day("Weekend", weekend_start.as_str(), weekend_end.as_str(), v.flag("WeekendEnabled", true));
    let weekend = match weekend { Ok(x) => x, Err(e) => { proof { lemma_first_error(days, 2); } return Err(e); } };
    assert(days[2] == Ok::<DayScheduleView, Seq<char>>(weekend@));
    let monday = migrate_individual(v, "Monday", weekday_start.as_str(), weekday_end.as_str());
    let monday = match monday { Ok(x) => x, Err(e) => { proof { lemma_first_error(days, 3); } return Err(e); } };
    assert(days[3] == Ok::<DayScheduleView, Seq<char>>(monday@));
    let tuesday = migrate_individual(v, "Tuesday", weekday_start.as_str(), weekday_end.as_str());
    let tuesday = match tuesday { Ok(x) => x, Err(e) => { proof { lemma_first_error(days, 4); } return Err(e); } };
    assert(days[4] == Ok::<DayScheduleView, Seq<char>>(tuesday@));
    let wednesday = migrate_individual(v, "Wednesday", weekday_start.as_str(), weekday_end.as_str());
    let wednesday = match wednesday { Ok(x) => x, Err(e) => { proof { lemma_first_error(days, 5); } return Err(e); } };
    assert(days[5] == Ok::<DayScheduleView, Seq<char>>(wednesday@));
    let thursday = migrate_individual(v, "Thursday", weekday_start.as_str(), weekday_end.as_str());
    let thursday = match thursday { Ok(x) => x, Err(e) => { proof { lemma_first_error(days, 6); } return Err(e); } };
    assert(days[6] == Ok::<DayScheduleView, Seq<char>>(thursday@));
    let friday = migrate_individual(v, "Friday", weekday_start.as_str(), weekday_end.as_str());
    let friday = match friday { Ok(x) => x, Err(e) => { proof { lemma_first_error(days, 7); } return Err(e); } };
    assert(days[7] == Ok::<DayScheduleView, Seq<char>>(friday@));
    let saturday = migrate_individual(v, "Saturday", weekend_start.as_str(), weekend_end.as_str());
    let saturday = match saturday { Ok(x) => x, Err(e) => { proof { lemma_first_error(days, 8); } return Err(e); } };
    assert(days[8] == Ok::<DayScheduleView, Seq<char>>(saturday@));
    let sunday = migrate_individual(v, "Sunday", weekend_start.as_str(), weekend_end.as_str());
    let sunday = match sunday { Ok(x) => x, Err(e) => { proof { lemma_first_error(days, 9); } return Err(e); } };
    assert(days[9] == Ok::<DayScheduleView, Seq<char>>(sunday@));
    proof {
        lemma_first_error(days, 10);
    }
    Ok(Days { every_day, weekday, weekend, monday, tuesday, wednesday, thursday, friday, saturday, sunday })
}

/// The four lock choices of a version 2 file.
fn migrate_policies(v: &LegacyDocument) -> (r: Result<Policies, String>)
    ensures
        match r {
            Ok(p) => first_error(migrated_policies(v@)) is None && p == policies_of(migrated_policies(v@)),
            Err(e) => first_error(migrated_policies(v@)) == Some(e@),
        },
{
    let ghost pols = migrated_policies(v@);
    let change_times = match v.policy("ChangeTimesPolicy") { Ok(x) => x, Err(e) => { proof { lemma_first_error(pols, 0); } return Err(e); } };
    let turn_off = match v.policy("TurnOffProtectionPolicy") { Ok(x) => x, Err(e) => { proof { lemma_first_error(pols, 1); } return Err(e); } };
    let uninstall = match v.policy("UninstallPolicy") { Ok(x) => x, Err(e) => { proof { lemma_first_error(pols, 2); } return Err(e); } };
    let remove_executables = match v.policy("RemoveExecutablesPolicy") { Ok(x) => x, Err(e) => { proof { lemma_first_error(pols, 3); } return Err(e); } };
    proof {
        lemma_first_error(pols, 4);
    }
    Ok(Policies { change_times, turn_off, uninstall, remove_executables, change_locks: Policy::Never })
}

/// Turns the entries of a version 2 configuration file into a configuration.
pub fn migrate_v2(v: &LegacyDocument) -> (r: Result<Config, String>)
    ensures
        match r {
            Ok(c) => migrated(v@) == Ok::<ConfigView, Seq<char>>(c@),
            Err(e) => migrated(v@) == Err::<ConfigView, Seq<char>>(e@),
        },
{
    let ghost d = v@;
    let schedule_mode = match v.text("ScheduleMode") {
        None => ScheduleMode::EveryDay,
        Some(s) => {
            if same_text(s.as_str(), "EveryDay") {
                ScheduleMode::EveryDay
            } else if same_text(s.as_str(), "WeekdayWeekend") {
                ScheduleMode::WeekdayWeekend
            } else if same_text(s.as_str(), "IndividualDays") {
                ScheduleMode::IndividualDays
            } else {
                return Err(
                    String::from_str(
                        "ScheduleMode must be 'EveryDay', 'WeekdayWeekend', or 'IndividualDays'.",
                    ),
                );
            }
        },
    };
    assert(doc_mode(d) == Ok::<ScheduleMode, Seq<char>>(schedule_mode));
    let executables = v.executables();
    let setup_version = v.whole("SetupVersion", 0);
    let setup_completed = v.flag("SetupCompleted", false) && setup_version >= 2;
    let days = match migrate_days(v) {
        Ok(x) => x,
        Err(e) => {
            return Err(e);
        },
    };
    let policies = match migrate_policies(v) {
        Ok(x) => x,
        Err(e) => {
            return Err(e);
        },
    };
    let target_user_sid = v.text_or("TargetUserSid", "");
    let check_interval_seconds = v.whole("CheckIntervalSeconds", 2) as u32;
    let c = Config {
        version: CONFIG_VERSION,
        setup_completed,
        schedule_mode,
        days,
        policies,
        executables,
        target_user_sid,
        check_interval_seconds,
        shortcuts: Shortcuts::default(),
        preferences: Preferences::default(),
    };
    proof {
        reveal_strlit("");
        assert(c@.target_user_sid == text_or(d, "TargetUserSid"@, Seq::empty()));
    }
    Ok(c)
}

proof fn lemma_no_error<T>(s: Seq<Result<T, Seq<char>>>, j: int)
    requires
        first_error(s) is None,
        0 <= j < s.len(),
    ensures
        s[j] is Ok,
    decreases s.len(),
{
    if j > 0 {
        assert(s.drop_first()[j - 1] == s[j]);
        lemma_no_error(s.drop_first(), j - 1);
    }
}

/// A migrated schedule is made of well-formed blocks.
proof fn lemma_migrated_days_wf(d: Seq<(Seq<char>, LegacyValueView)>)
    requires
        first_error(migrated_days(d)) is None,
    ensures
        days_of(migrated_days(d)).wf(),
{
    let days = migrated_days(d);
    assert forall|n: Seq<char>, st: Seq<char>, en: Seq<char>, on: bool|
        #[trigger] migrated_day(n, st, en, on) is Ok implies all_wf(migrated_day(n, st, en, on)->Ok_0.blocks) by {
    }
    assert forall|i: int| 0 <= i < 10 implies all_wf((#[trigger] days[i])->Ok_0.blocks) by {
        lemma_no_error(days, i);
    }
    assert forall|t: Track| all_wf(#[trigger] days_of(days).get(t).blocks) by {
        match t {
            Track::EveryDay => assert(all_wf(days[0]->Ok_0.blocks)),
            Track::Weekday => assert(all_wf(days[1]->Ok_0.blocks)),
            Track::Weekend => assert(all_wf(days[2]->Ok_0.blocks)),
            Track::Monday => assert(all_wf(days[3]->Ok_0.blocks)),
            Track::Tuesday => assert(all_wf(days[4]->Ok_0.blocks)),
            Track::Wednesday => assert(all_wf(days[5]->Ok_0.blocks)),
            Track::Thursday => assert(all_wf(days[6]->Ok_0.blocks)),
            Track::Friday => assert(all_wf(days[7]->Ok_0.blocks)),
            Track::Saturday => assert(all_wf(days[8]->Ok_0.blocks)),
            Track::Sunday => assert(all_wf(days[9]->Ok_0.blocks)),
        }
    }
}

/// Whether a settings file is written in the current format: its `version` is 3 or later (a
/// missing or unreadable version counts as 0).
pub fn uses_current_format(version: Option<u64>) -> (r: bool)
    ensures
        r == (version matches Some(v) && v >= 3),
{
    match version {
        Some(v) => v >= 3,
        None => false,
    }
}

/// `text` without the byte order marks it starts with.
pub open spec fn without_bom(text: Seq<char>) -> Seq<char>
    decreases text.len(),
{
    if text.len() > 0 && text[0] == '\u{feff}' {
        without_bom(text.drop_first())
    } else {
        text
    }
}

pub fn strip_bom(text: &str) -> (r: String)
    ensures
        r@ == without_bom(text@),
{
    let c = chars_of(text);
    let n = c.len();
    let mut i: usize = 0;
    assert(c@.subrange(0, n as int) == c@);
    while i < n && c[i] == '\u{feff}'
        invariant
            i <= n,
            n == c@.len(),
            c@ == text@,
            without_bom(c@) == without_bom(c@.subrange(i as int, n as int)),
        decreases n - i,
    {
        assert(c@.subrange(i as int, n as int).drop_first() == c@.subrange(i + 1, n as int));
        i = i + 1;
    }
    crate::text::string_of(&crate::text::subrange_chars(&c, i, n))
}

/// What a settings file gives once read as JSON: a configuration in the current format, or the
/// fields of a version 2 file.
pub enum Parsed {
    Current(Config),
    Legacy(LegacyDocument),
}

/// A settings file's configuration, validated: a version 2 file is migrated first.
pub fn finish_loading(parsed: Parsed) -> (r: Result<Config, String>)
    requires
        parsed matches Parsed::Current(c) ==> c.days@.wf(),
    ensures
        match parsed {
            Parsed::Current(c) => match r {
                Ok(k) => k@ == c@ && config_problem(c@) is None,
                Err(e) => config_problem(c@) == Some(e@),
            },
            Parsed::Legacy(d) => match migrated(d@) {
                Err(m) => r matches Err(e) && e@ == m,
                Ok(c) => match r {
                    Ok(k) => k@ == c && config_problem(c) is None,
                    Err(e) => config_problem(c) == Some(e@),
                },
            },
        },
{
    let config = match parsed {
        Parsed::Current(c) => c,
        Parsed::Legacy(d) => {
            let m = migrate_v2(&d);
            match m {
                Ok(c) => {
                    proof {
                        lemma_migrated_days_wf(d@);
                    }
                    c
                },
                Err(e) => {
                    return Err(e);
                },
            }
        },
    };
    match config.validate() {
        Ok(()) => Ok(config),
        Err(e) => Err(e),
    }
}

/// The error of a file that is not JSON.
pub fn not_json_message(detail: &str) -> (r: String)
    ensures
        r@ == "The configuration is not valid JSON: "@ + detail@,
{
    let mut s = String::from_str("The configuration is not valid JSON: ");
    s.append(detail);
    s
}

/// The error of a current-format file whose fields do not fit.
pub fn invalid_message(detail: &str) -> (r: String)
    ensures
        r@ == "The configuration is invalid: "@ + detail@,
{
    let mut s = String::from_str("The configuration is invalid: ");
    s.append(detail);
    s
}

/// What `serde_json::from_str` makes of a settings text, read as a document: the top-level
/// entries of a JSON object, in the order the parsed map keeps them, each value as migration
/// reads it (an empty document for JSON that is not an object); or, for text that is not JSON,
/// the parser's message.
pub uninterp spec fn json_document(text: Seq<char>) -> Result<Seq<(Seq<char>, LegacyValueView)>, Seq<char>>;

/// `serde_json::from_str` into a `serde_json::Value`, with the object's entries converted one
/// for one into `LegacyValue`s and the error into its message.
#[verifier::external_body]
fn parse_document(text: &str) -> (r: Result<LegacyDocument, String>)
    ensures
        match r {
            Ok(d) => json_document(text@) == Ok::<Seq<(Seq<char>, LegacyValueView)>, Seq<char>>(d@),
            Err(e) => json_document(text@) == Err::<Seq<(Seq<char>, LegacyValueView)>, Seq<char>>(e@),
        },
{
    let value = serde_json::from_str::<Value>(text).map_err(|e| e.to_string())?;
    let entries = value.as_object().into_iter().flatten().map(|(k, x)| (k.clone(), match x {
        Value::String(s) => Text(s.clone()),
        Value::Bool(b) => Flag(*b),
        Value::Number(n) => n.as_u64().map_or(Other, Whole),
        Value::Array(a) => List(a.iter().map(|i| i.as_str().map(str::to_owned)).collect()),
        _ => Other,
    }));
    Ok(LegacyDocument { entries: entries.collect() })
}

/// The `version` a document records, where it is a whole number.
pub open spec fn doc_version(d: Seq<(Seq<char>, LegacyValueView)>) -> Option<u64> {
    match doc_get(d, "version"@) {
        Some(LegacyValueView::Whole(n)) => Some(n),
        _ => None,
    }
}

/// Whether a configuration file was written by the previous (version 2) app: it is JSON, and it
/// records no `version`.
pub fn is_legacy_json(text: &str) -> (r: bool)
    ensures
        r == (json_document(without_bom(text@)) matches Ok(d) && doc_get(d, "version"@) is None),
{
    let t = strip_bom(text);
    match parse_document(t.as_str()) {
        Ok(d) => d.get("version").is_none(),
        Err(_) => false,
    }
}

/// How a settings text is read: for text that is not JSON, the error naming the parser's
/// message; for a file in the current format (version 3 or later), nothing, since its fields
/// are read as a configuration; otherwise the version 2 document to migrate.
pub fn read_settings_text(text: &str) -> (r: Result<Option<LegacyDocument>, String>)
    ensures
        match json_document(without_bom(text@)) {
            Err(m) => r matches Err(e) && e@ == "The configuration is not valid JSON: "@ + m,
            Ok(d) => if doc_version(d) matches Some(v) && v >= 3 {
                r matches Ok(None)
            } else {
                r matches Ok(Some(l)) && l@ == d
            },
        },
{
    let t = strip_bom(text);
    match parse_document(t.as_str()) {
        Err(e) => Err(not_json_message(e.as_str())),
        Ok(d) => {
            let version = match d.get("version") {
                Some(LegacyValue::Whole(n)) => Some(*n),
                _ => None,
            };
            if uses_current_format(version) {
                Ok(None)
            } else {
                Ok(Some(d))
            }
        },
    }
}

} // verus!
