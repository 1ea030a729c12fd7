use traps::text::{characters, find, read_decimal, read_i16, read_u32, space, spells, trim};
use traps::{color_to_argb, parse_hex, Config, ConfigError, Point, Ratio};

fn chars(text: &str) -> Vec<char> {
    characters(text)
}

#[test]
fn characters_are_the_chars_of_the_text() {
    assert_eq!(chars("a=é\n"), vec!['a', '=', 'é', '\n']);
    assert!(chars("").is_empty());
}

#[test]
fn space_is_unicode_white_space() {
    for c in [' ', '\t', '\n', '\r', '\u{b}', '\u{c}', '\u{85}', '\u{a0}', '\u{1680}', '\u{2000}',
        '\u{200a}', '\u{2028}', '\u{2029}', '\u{202f}', '\u{205f}', '\u{3000}']
    {
        assert!(space(c));
        assert!(c.is_whitespace());
    }
    for c in ['a', '0', '=', '#', '\u{8}', '\u{e}', '\u{1f}', '\u{200b}', '\u{feff}', '\u{180e}'] {
        assert!(!space(c));
        assert!(!c.is_whitespace());
    }
}

#[test]
fn space_agrees_with_std_on_every_character() {
    for v in 0..=0x10ffffu32 {
        if let Some(c) = char::from_u32(v) {
            assert_eq!(space(c), c.is_whitespace());
        }
    }
}

#[test]
fn find_gives_the_first_or_the_end() {
    let text = chars("ab=cd=e");
    assert_eq!(find(&text, '=', 0, 7), 2);
    assert_eq!(find(&text, '=', 3, 7), 5);
    assert_eq!(find(&text, '=', 6, 7), 7);
    assert_eq!(find(&text, '=', 0, 2), 2);
    assert_eq!(find(&text, 'x', 0, 7), 7);
    assert_eq!(find(&text, 'a', 4, 4), 4);
}

#[test]
fn trim_takes_white_space_from_both_ends() {
    let text = chars("  \t name of it \r\n");
    assert_eq!(trim(&text, 0, text.len()), (4, 14));
    assert_eq!(trim(&text, 4, 14), (4, 14));
    assert_eq!(trim(&text, 0, 3), (3, 3));
    assert_eq!(trim(&text, 8, 9), (9, 9));
    let none = chars("");
    assert_eq!(trim(&none, 0, 0), (0, 0));
}

#[test]
fn spells_compares_a_part_with_a_word() {
    let text = chars("name=points");
    assert!(spells(&text, 0, 4, "name"));
    assert!(!spells(&text, 0, 5, "name"));
    assert!(!spells(&text, 0, 3, "name"));
    assert!(spells(&text, 5, 11, "points"));
    assert!(!spells(&text, 5, 11, "pointz"));
    assert!(spells(&text, 3, 3, ""));
}

fn int16(text: &str) -> Option<i16> {
    let text = chars(text);
    read_i16(&text, 0, text.len())
}

#[test]
fn read_i16_reads_what_std_reads() {
    for text in ["0", "7", "100", "-100", "+100", "32767", "-32768", "32768", "-32769", "007",
        "-0", "+0", "", "-", "+", "1 ", " 1", "1.5", "a", "--1", "+-1", "99999999999999999999",
        "-99999999999999999999", "1e3", "٣"]
    {
        assert_eq!(int16(text), text.parse::<i16>().ok());
    }
    assert_eq!(int16("-100"), Some(-100));
    assert_eq!(int16("32768"), None);
}

fn nat32(text: &str) -> Option<u32> {
    let text = chars(text);
    read_u32(&text, 0, text.len())
}

#[test]
fn read_u32_reads_what_std_reads() {
    for text in ["0", "10", "+10", "-10", "-0", "4294967295", "4294967296", "0004294967295", "",
        "+", "1x", "99999999999999999999999"]
    {
        assert_eq!(nat32(text), text.parse::<u32>().ok());
    }
    assert_eq!(nat32("4294967295"), Some(u32::MAX));
}

fn decimal(text: &str) -> Option<Ratio> {
    let text = chars(text);
    read_decimal(&text, 0, text.len())
}

#[test]
fn read_decimal_gives_a_fraction_over_a_power_of_ten() {
    assert_eq!(decimal("20"), Some(Ratio { num: 20, den: 1 }));
    assert_eq!(decimal("20.0"), Some(Ratio { num: 200, den: 10 }));
    assert_eq!(decimal("2.5"), Some(Ratio { num: 25, den: 10 }));
    assert_eq!(decimal("+2.5"), Some(Ratio { num: 25, den: 10 }));
    assert_eq!(decimal("0.125"), Some(Ratio { num: 125, den: 1000 }));
    assert_eq!(decimal(".5"), Some(Ratio { num: 5, den: 10 }));
    assert_eq!(decimal("3."), Some(Ratio { num: 3, den: 1 }));
    assert_eq!(decimal("0"), Some(Ratio { num: 0, den: 1 }));
    assert_eq!(decimal("4.294967295"), Some(Ratio { num: 4294967295, den: 1_000_000_000 }));
    assert_eq!(decimal("4294967295"), Some(Ratio { num: u32::MAX, den: 1 }));
}

#[test]
fn read_decimal_refuses_what_is_no_decimal() {
    for text in ["", ".", "+", "+.", "-1", "1e3", "1.2.3", "1,5", " 1", "1 ", "abc", "inf", "nan",
        "4294967296", "4.294967296", "0.0000000001", "429496729.6"]
    {
        assert_eq!(decimal(text), None);
    }
}

#[test]
fn color_to_argb_scales_the_parts_by_the_opacity() {
    assert_eq!(color_to_argb(255, 255, 255, 255), 0xffff_ffff);
    assert_eq!(color_to_argb(0, 0, 0, 150), 0x9600_0000);
    assert_eq!(color_to_argb(0, 0, 0, 0), 0);
    assert_eq!(color_to_argb(255, 255, 255, 0), 0);
    let (r, g, b, a) = (0x12u32, 0x34u32, 0x56u32, 0x80u32);
    let expected = (a << 24) | ((r << 16) * a / 255) | ((g << 8) * a / 255) | (b * a / 255);
    assert_eq!(color_to_argb(r, g, b, a), expected);
    assert_eq!(color_to_argb(r, g, b, a), 0x8009_1b3b);
}

#[test]
fn parse_hex_reads_four_bytes() {
    assert_eq!(parse_hex("#ffffffff"), Some(0xffff_ffff));
    assert_eq!(parse_hex("#00000096"), Some(0x9600_0000));
    assert_eq!(parse_hex("#12345680"), Some(color_to_argb(0x12, 0x34, 0x56, 0x80)));
    assert_eq!(parse_hex("#ABCDEFab"), Some(color_to_argb(0xab, 0xcd, 0xef, 0xab)));
    // The first character is not looked at, nor what follows the ninth.
    assert_eq!(parse_hex("x12345680"), Some(color_to_argb(0x12, 0x34, 0x56, 0x80)));
    assert_eq!(parse_hex("#12345680 and more"), Some(color_to_argb(0x12, 0x34, 0x56, 0x80)));
    // A plus sign may stand for the first digit of a pair.
    assert_eq!(parse_hex("#+f+0+1+f"), Some(color_to_argb(0xf, 0, 1, 0xf)));
}

#[test]
fn parse_hex_refuses_what_is_no_colour() {
    for text in ["", "#", "#fffffff", "#gggggggg", "#ffffff f", "#-1ffffff", "#f+ffffff",
        "#ffffffé", "éffffffff"]
    {
        assert_eq!(parse_hex(text), None);
    }
}

#[test]
fn empty_configuration_is_the_default() {
    let config = Config::new("").unwrap();
    assert_eq!(config.fg, color_to_argb(255, 255, 255, 255));
    assert_eq!(config.bg, color_to_argb(0, 0, 0, 150));
    assert_eq!(config.r, 10);
    assert!(config.gestures.is_empty());
}

#[test]
fn configuration_sets_colours_and_radius() {
    let config = Config::new("fg = #ff000080\nbg=#00ff00ff\n r =  7 \n").unwrap();
    assert_eq!(config.fg, color_to_argb(0xff, 0, 0, 0x80));
    assert_eq!(config.bg, color_to_argb(0, 0xff, 0, 0xff));
    assert_eq!(config.r, 7);
}

#[test]
fn configuration_reads_gestures() {
    let text = "\
# a swipe to the right
name = Right-swipe
action = notify-send right
is_relative = true
tolerance = 12.5
points = (0 0), (100 0)

name=corner
points=(0 0),(50 0),(50 -50)
";
    let config = Config::new(text).unwrap();
    assert_eq!(config.gestures.len(), 2);
    let swipe = &config.gestures[0];
    assert_eq!(swipe.name, "Right-swipe");
    assert_eq!(swipe.action, "notify-send right");
    assert!(swipe.is_relative);
    assert_eq!(swipe.tolerance, Ratio { num: 125, den: 10 });
    assert_eq!(swipe.points_count(), 2);
    assert_eq!(*swipe.first(), Point::new(0, 0));
    assert_eq!(*swipe.last(), Point::new(100, 0));
    // The second gesture starts from the defaults again.
    let corner = &config.gestures[1];
    assert_eq!(corner.name, "corner");
    assert_eq!(corner.action, "");
    assert!(!corner.is_relative);
    assert_eq!(corner.tolerance, Ratio { num: 20, den: 1 });
    assert_eq!(corner.points_count(), 3);
    assert_eq!(*corner.get_point(1), Point::new(50, 0));
    assert_eq!(*corner.last(), Point::new(50, -50));
    // The size is worked out when the gesture is registered.
    assert_eq!((corner.width(), corner.height()), (0, 0));
}

fn points_of(value: &str) -> Vec<Point> {
    let text = format!("points={}", value);
    let config = Config::new(&text).unwrap();
    assert_eq!(config.gestures.len(), 1);
    let gesture = &config.gestures[0];
    (0..gesture.points_count()).map(|i| *gesture.get_point(i)).collect()
}

#[test]
fn points_that_are_none_are_left_out() {
    let p = Point::new;
    assert_eq!(points_of("(1 2),(3 4)"), vec![p(1, 2), p(3, 4)]);
    assert_eq!(points_of(" ( 1 2 ) , (3 4) "), vec![p(1, 2), p(3, 4)]);
    assert_eq!(points_of("(1 2),,(3 4),"), vec![p(1, 2), p(3, 4)]);
    assert_eq!(points_of("(1  2),(3 4)"), vec![p(3, 4)]);
    assert_eq!(points_of("(1 2 3),(3 4)"), vec![p(3, 4)]);
    assert_eq!(points_of("(1),(),( ),(,(3 4)"), vec![p(3, 4)]);
    assert_eq!(points_of("1 2,(3 4)"), vec![p(3, 4)]);
    assert_eq!(points_of("Circle(1 2),(3 4)"), vec![p(3, 4)]);
    assert_eq!(points_of(""), vec![]);
    assert_eq!(points_of("(1\t2)"), vec![]);
}

#[test]
fn coordinates_that_are_no_numbers_are_zero() {
    let p = Point::new;
    assert_eq!(points_of("(a b)"), vec![p(0, 0)]);
    assert_eq!(points_of("(40000 -7)"), vec![p(0, -7)]);
    assert_eq!(points_of("(+5 1.5)"), vec![p(5, 0)]);
    assert_eq!(points_of("(-32768 32767)"), vec![p(i16::MIN, i16::MAX)]);
}

#[test]
fn lines_that_say_nothing_are_passed_over() {
    let text = "#r=3\nr\n\n=5\nradius=4\nR=9\n#\n  # r = 1\nr=6";
    let config = Config::new(text).unwrap();
    assert_eq!(config.r, 6);
    assert!(config.gestures.is_empty());
}

#[test]
fn a_comment_begins_at_the_start_of_its_line() {
    // White space before `#` makes the line an entry with a key that begins with `#`.
    let text = " #name=x\nname=y\npoints=(0 0)";
    let config = Config::new(text).unwrap();
    assert_eq!(config.gestures[0].name, "y");
}

#[test]
fn value_is_what_follows_the_first_equals_sign() {
    let config = Config::new("action = a=b = c \npoints=(0 0)\r\n").unwrap();
    assert_eq!(config.gestures[0].action, "a=b = c");
    assert_eq!(config.gestures[0].points_count(), 1);
}

#[test]
fn is_relative_is_true_only_for_true() {
    for (value, expected) in [("true", true), ("false", false), ("True", false), ("1", false),
        ("", false), ("true false", false)]
    {
        let text = format!("is_relative={}\npoints=(0 0)", value);
        assert_eq!(Config::new(&text).unwrap().gestures[0].is_relative, expected);
    }
}

#[test]
fn tolerance_that_is_no_decimal_is_the_default() {
    for value in ["", "wide", "-3", "1e2"] {
        let text = format!("tolerance={}\npoints=(0 0)", value);
        let config = Config::new(&text).unwrap();
        assert_eq!(config.gestures[0].tolerance, Ratio { num: 20, den: 1 });
    }
    let config = Config::new("tolerance=3\npoints=(0 0)").unwrap();
    assert_eq!(config.gestures[0].tolerance, Ratio { num: 3, den: 1 });
}

#[test]
fn later_lines_overwrite_earlier_ones() {
    let text = "name=a\nname=b\nr=1\nr=2\npoints=(0 0)\n";
    let config = Config::new(text).unwrap();
    assert_eq!(config.gestures[0].name, "b");
    assert_eq!(config.r, 2);
}

#[test]
fn points_without_attributes_give_an_unnamed_gesture() {
    let config = Config::new("points=\npoints=(1 1)").unwrap();
    assert_eq!(config.gestures.len(), 2);
    assert_eq!(config.gestures[0].points_count(), 0);
    assert_eq!(config.gestures[0].name, "");
    assert_eq!(config.gestures[1].points_count(), 1);
}

#[test]
fn malformed_colour_is_an_error() {
    assert!(matches!(Config::new("fg=red"), Err(ConfigError::MalformedColor)));
    assert!(matches!(Config::new("bg=#12345"), Err(ConfigError::MalformedColor)));
    assert!(matches!(Config::new("r=3\nbg=\nr=x"), Err(ConfigError::MalformedColor)));
}

#[test]
fn malformed_radius_is_an_error() {
    assert!(matches!(Config::new("r=ten"), Err(ConfigError::MalformedRadius)));
    assert!(matches!(Config::new("r=-1"), Err(ConfigError::MalformedRadius)));
    assert!(matches!(Config::new("r="), Err(ConfigError::MalformedRadius)));
    assert!(matches!(Config::new("r=1.5\nfg=red"), Err(ConfigError::MalformedRadius)));
}

#[test]
fn names_may_hold_any_characters() {
    let config = Config::new("name = Über → größer\npoints=(0 0)").unwrap();
    assert_eq!(config.gestures[0].name, "Über → größer");
}
