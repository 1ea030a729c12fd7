//! The settings of the program and the gestures it knows, as they are
//! written down in text: one `key = value` on a line.
//!
//! `name`, `action`, `is_relative` and `tolerance` describe the gesture that
//! the next `points` line completes. `fg`, `bg` and `r` set the colours and
//! the radius of the pen. Lines that begin with `#`, lines without `=` and
//! lines with another key say nothing.

use crate::color::{argb, color_of, color_to_argb, read_color};
use crate::geometry::{Point, Ratio};
use crate::gesture::{Gesture, GestureAttributes, GestureView, DEFAULT_TOLERANCE};
use crate::text::{
    characters, find, parse_decimal, parse_i16, parse_u32, read_decimal, read_i16, read_u32,
    scan_to, skip_spaces, drop_spaces, spells, trim,
};
use vstd::prelude::*;
use vstd::string::StrSliceExecFns;

verus! {

/// Why a text is not a configuration.
#[derive(Debug, Clone, Copy, PartialEq, Eq, Structural)]
pub enum ConfigError {
    /// The value of `fg` or `bg` is no colour.
    MalformedColor,
    /// The value of `r` is no whole number.
    MalformedRadius,
}

/// The settings and gestures read from a configuration.
pub struct Config {
    /// The colour of the pen.
    pub fg: u32,
    /// The colour of the background.
    pub bg: u32,
    /// The radius of the pen.
    pub r: u32,
    pub gestures: Vec<Gesture>,
}

/// A configuration as a mathematical value.
pub struct ConfigView {
    pub fg: u32,
    pub bg: u32,
    pub r: u32,
    pub gestures: Seq<GestureView>,
}

impl View for Config {
    type V = ConfigView;

    open spec fn view(&self) -> ConfigView {
        ConfigView {
            fg: self.fg,
            bg: self.bg,
            r: self.r,
            gestures: Seq::new(self.gestures@.len(), |i: int| self.gestures@[i]@),
        }
    }
}

/// What has been read of the gesture that the next `points` line completes.
pub struct Pending {
    pub name: Seq<char>,
    pub action: Seq<char>,
    pub is_relative: bool,
    pub tolerance: Ratio,
}

/// What the lines read so far say.
pub struct Progress {
    pub config: ConfigView,
    pub pending: Pending,
}

/// A gesture of which nothing has been read yet.
pub open spec fn nothing_pending() -> Pending {
    Pending {
        name: Seq::empty(),
        action: Seq::empty(),
        is_relative: false,
        tolerance: Ratio { num: DEFAULT_TOLERANCE, den: 1 },
    }
}

/// What an empty text says: a white pen of radius 10 on a black background
/// that lets the screen shine through, and no gestures.
pub open spec fn nothing_read() -> Progress {
    Progress {
        config: ConfigView {
            fg: argb(255, 255, 255, 255),
            bg: argb(0, 0, 0, 150),
            r: 10,
            gestures: Seq::empty(),
        },
        pending: nothing_pending(),
    }
}

/// The end of a scan lies between its bounds.
pub proof fn lemma_scan_to_bounds(s: Seq<char>, c: char, from: int, to: int)
    requires
        from <= to,
    ensures
        from <= scan_to(s, c, from, to) <= to,
    decreases to - from,
{
    if from < to && s[from] != c {
        lemma_scan_to_bounds(s, c, from + 1, to);
    }
}

/// The number that `s` denotes, or 0 if it denotes none of 16 bits.
pub open spec fn coordinate(s: Seq<char>) -> i16 {
    match parse_i16(s) {
        Some(v) => v,
        None => 0,
    }
}

/// The point that the characters of `t` between `from` and `to` denote: two
/// coordinates with one blank between them, in round brackets. White space
/// next to the brackets does not count.
pub open spec fn point_of(t: Seq<char>, from: int, to: int) -> Option<Point> {
    if to - from >= 2 && t[from] == '(' && t[to - 1] == ')' {
        let start = skip_spaces(t, from + 1, to - 1);
        let end = drop_spaces(t, start, to - 1);
        let blank = scan_to(t, ' ', start, end);
        if blank < end && scan_to(t, ' ', blank + 1, end) == end {
            Some(
                Point {
                    x: coordinate(t.subrange(start, blank)),
                    y: coordinate(t.subrange(blank + 1, end)),
                },
            )
        } else {
            None
        }
    } else {
        None
    }
}

/// The points that the characters of `t` between `from` and `to` denote:
/// what stands between commas, as far as it denotes a point.
pub open spec fn points_in(t: Seq<char>, from: int, to: int) -> Seq<Point>
    decreases to - from,
{
    if from > to {
        Seq::empty()
    } else {
        let comma = scan_to(t, ',', from, to);
        let start = skip_spaces(t, from, comma);
        let first = match point_of(t, start, drop_spaces(t, start, comma)) {
            Some(p) => seq![p],
            None => Seq::empty(),
        };
        if comma < to {
            proof {
                lemma_scan_to_bounds(t, ',', from, to);
            }
            first + points_in(t, comma + 1, to)
        } else {
            first
        }
    }
}

/// The gesture that a `points` line completes.
pub open spec fn gesture_of(pending: Pending, points: Seq<Point>) -> GestureView {
    GestureView {
        points,
        is_relative: pending.is_relative,
        constraints: Seq::empty(),
        tolerance: pending.tolerance,
        name: pending.name,
        action: pending.action,
        width: 0,
        height: 0,
    }
}

/// What is read once the line with the key between `key` and `key_end` and
/// the value between `value` and `value_end` has been read too.
pub open spec fn apply_entry(
    progress: Progress,
    t: Seq<char>,
    key: int,
    key_end: int,
    value: int,
    value_end: int,
) -> Result<Progress, ConfigError> {
    let k = t.subrange(key, key_end);
    let v = t.subrange(value, value_end);
    if k == "name"@ {
        Ok(Progress { pending: Pending { name: v, ..progress.pending }, ..progress })
    } else if k == "is_relative"@ {
        Ok(Progress { pending: Pending { is_relative: v == "true"@, ..progress.pending }, ..progress })
    } else if k == "action"@ {
        Ok(Progress { pending: Pending { action: v, ..progress.pending }, ..progress })
    } else if k == "tolerance"@ {
        Ok(
            Progress {
                pending: Pending {
                    tolerance: match parse_decimal(v) {
                        Some(tolerance) => tolerance,
                        None => Ratio { num: DEFAULT_TOLERANCE, den: 1 },
                    },
                    ..progress.pending
                },
                ..progress
            },
        )
    } else if k == "points"@ {
        Ok(
            Progress {
                config: ConfigView {
                    gestures: progress.config.gestures.push(
                        gesture_of(progress.pending, points_in(t, value, value_end)),
                    ),
                    ..progress.config
                },
                pending: nothing_pending(),
            },
        )
    } else if k == "bg"@ {
        match color_of(v) {
            Some(bg) => Ok(Progress { config: ConfigView { bg, ..progress.config }, ..progress }),
            None => Err(ConfigError::MalformedColor),
        }
    } else if k == "fg"@ {
        match color_of(v) {
            Some(fg) => Ok(Progress { config: ConfigView { fg, ..progress.config }, ..progress }),
            None => Err(ConfigError::MalformedColor),
        }
    } else if k == "r"@ {
        match parse_u32(v) {
            Some(r) => Ok(Progress { config: ConfigView { r, ..progress.config }, ..progress }),
            None => Err(ConfigError::MalformedRadius),
        }
    } else {
        Ok(progress)
    }
}

/// What is read once the line between `from` and `to` has been read too. Key
/// and value stand before and behind the first `=`, without the white space
/// around them.
pub open spec fn apply_line(progress: Progress, t: Seq<char>, from: int, to: int) -> Result<
    Progress,
    ConfigError,
> {
    let equals = scan_to(t, '=', from, to);
    if (from < to && t[from] == '#') || equals == to {
        Ok(progress)
    } else {
        let key = skip_spaces(t, from, equals);
        let value = skip_spaces(t, equals + 1, to);
        apply_entry(
            progress,
            t,
            key,
            drop_spaces(t, key, equals),
            value,
            drop_spaces(t, value, to),
        )
    }
}

/// What is read once the lines from `from` on have been read too, or what is
/// wrong with the first of them that is malformed.
pub open spec fn apply_lines(progress: Progress, t: Seq<char>, from: int) -> Result<
    Progress,
    ConfigError,
>
    decreases t.len() - from,
{
    if from >= t.len() {
        Ok(progress)
    } else {
        let end = scan_to(t, '\n', from, t.len() as int);
        match apply_line(progress, t, from, end) {
            Ok(next) => if end < t.len() {
                proof {
                    lemma_scan_to_bounds(t, '\n', from, t.len() as int);
                }
                apply_lines(next, t, end + 1)
            } else {
                Ok(next)
            },
            Err(e) => Err(e),
        }
    }
}

/// The configuration that the text `t` is, or what is wrong with it.
pub open spec fn configuration(t: Seq<char>) -> Result<ConfigView, ConfigError> {
    match apply_lines(nothing_read(), t, 0) {
        Ok(progress) => Ok(progress.config),
        Err(e) => Err(e),
    }
}

/// Reads one coordinate; what is no number counts as 0.
fn read_coordinate(chars: &Vec<char>, from: usize, to: usize) -> (v: i16)
    requires
        from <= to <= chars@.len(),
    ensures
        v == coordinate(chars@.subrange(from as int, to as int)),
{
    match read_i16(chars, from, to) {
        Some(v) => v,
        None => 0,
    }
}

/// Reads a point from the characters of `chars` between `from` and `to`.
fn read_point(chars: &Vec<char>, from: usize, to: usize) -> (p: Option<Point>)
    requires
        from <= to <= chars@.len(),
    ensures
        p == point_of(chars@, from as int, to as int),
{
    if to - from < 2 || chars[from] != '(' || chars[to - 1] != ')' {
        return None;
    }
    let (start, end) = trim(chars, from + 1, to - 1);
    let blank = find(chars, ' ', start, end);
    if blank >= end {
        return None;
    }
    if find(chars, ' ', blank + 1, end) != end {
        return None;
    }
    Some(Point::new(read_coordinate(chars, start, blank), read_coordinate(chars, blank + 1, end)))
}

/// Reads the points from the characters of `chars` between `from` and `to`.
fn read_points(chars: &Vec<char>, from: usize, to: usize) -> (points: Vec<Point>)
    requires
        from <= to <= chars@.len(),
    ensures
        points@ == points_in(chars@, from as int, to as int),
{
    let mut points: Vec<Point> = Vec::new();
    let mut at = from;
    let mut more = true;
    while more
        invariant
            from <= at <= to <= chars@.len(),
            more ==> points_in(chars@, from as int, to as int) == points@ + points_in(
                chars@,
                at as int,
                to as int,
            ),
            !more ==> points_in(chars@, from as int, to as int) == points@,
            more ==> at <= to,
        decreases to - at + (if more { 1int } else { 0int }),
    {
        let ghost before = points@;
        let comma = find(chars, ',', at, to);
        let (start, end) = trim(chars, at, comma);
        match read_point(chars, start, end) {
            Some(p) => {
                points.push(p);
            },
            None => {},
        }
        proof {
            let first = match point_of(chars@, start as int, end as int) {
                Some(p) => seq![p],
                None => Seq::empty(),
            };
            assert(points@ =~= before + first);
            if comma < to {
                assert(before + (first + points_in(chars@, comma + 1, to as int)) =~= (before
                    + first) + points_in(chars@, comma + 1, to as int));
            } else {
                assert(before + first =~= points@);
            }
        }
        if comma < to {
            at = comma + 1;
        } else {
            more = false;
        }
    }
    points
}

impl Config {
    /// Reads the configuration from `content`. The first line whose colour or
    /// radius cannot be read makes the text malformed.
    pub fn new(content: &str) -> (r: Result<Config, ConfigError>)
        ensures
            match configuration(content@) {
                Ok(config) => r matches Ok(read) && read@ == config,
                Err(e) => r matches Err(error) && error == e,
            },
    {
        let chars = characters(content);
        let ghost t = chars@;
        let mut config = Config {
            fg: color_to_argb(255, 255, 255, 255),
            bg: color_to_argb(0, 0, 0, 150),
            r: 10,
            gestures: Vec::new(),
        };
        let mut attributes = GestureAttributes::default();
        let ghost mut progress = nothing_read();
        assert(config@.gestures =~= progress.config.gestures);
        let mut at: usize = 0;
        while at < chars.len()
            invariant
                t == chars@,
                t == content@,
                at <= t.len(),
                apply_lines(nothing_read(), t, 0) == apply_lines(progress, t, at as int),
                config@ == progress.config,
                attributes.name@ == progress.pending.name,
                attributes.action@ == progress.pending.action,
                attributes.is_relative == progress.pending.is_relative,
                attributes.tolerance == progress.pending.tolerance,
            decreases t.len() - at,
        {
            let end = find(&chars, '\n', at, chars.len());
            let equals = find(&chars, '=', at, end);
            let ghost before = progress;
            if chars[at] != '#' && equals < end {
                let (key, key_end) = trim(&chars, at, equals);
                let (value, value_end) = trim(&chars, equals + 1, end);
                let ghost gestures = config@.gestures;
                if spells(&chars, key, key_end, "name") {
                    attributes.name = content.substring_char(value, value_end);
                } else if spells(&chars, key, key_end, "is_relative") {
                    attributes.is_relative = spells(&chars, value, value_end, "true");
                } else if spells(&chars, key, key_end, "action") {
                    attributes.action = content.substring_char(value, value_end);
                } else if spells(&chars, key, key_end, "tolerance") {
                    attributes.tolerance = match read_decimal(&chars, value, value_end) {
                        Some(tolerance) => tolerance,
                        None => Ratio::whole(DEFAULT_TOLERANCE),
                    };
                } else if spells(&chars, key, key_end, "points") {
                    let points = read_points(&chars, value, value_end);
                    let mut gesture = Gesture::new(&attributes);
                    gesture.add_points(points);
                    proof {
                        assert(Seq::<Point>::empty() + points@ =~= points@);
                    }
                    config.gestures.push(gesture);
                    attributes = GestureAttributes::default();
                    proof {
                        assert(config@.gestures =~= gestures.push(
                            gesture_of(before.pending, points_in(t, value as int, value_end as int)),
                        ));
                    }
                } else if spells(&chars, key, key_end, "bg") {
                    match read_color(&chars, value, value_end) {
                        Some(bg) => {
                            config.bg = bg;
                        },
                        None => {
                            return Err(ConfigError::MalformedColor);
                        },
                    }
                } else if spells(&chars, key, key_end, "fg") {
                    match read_color(&chars, value, value_end) {
                        Some(fg) => {
                            config.fg = fg;
                        },
                        None => {
                            return Err(ConfigError::MalformedColor);
                        },
                    }
                } else if spells(&chars, key, key_end, "r") {
                    match read_u32(&chars, value, value_end) {
                        Some(r) => {
                            config.r = r;
                        },
                        None => {
                            return Err(ConfigError::MalformedRadius);
                        },
                    }
                }
                proof {
                    assert(config@.gestures =~= config@.gestures);
                    progress = apply_entry(
                        before,
                        t,
                        key as int,
                        key_end as int,
                        value as int,
                        value_end as int,
                    )->Ok_0;
                }
            }
            assert(apply_line(before, t, at as int, end as int) == Ok::<Progress, ConfigError>(
                progress,
            ));
            at = if end < chars.len() {
                end + 1
            } else {
                end
            };
        }
        Ok(config)
    }
}

} // verus!
