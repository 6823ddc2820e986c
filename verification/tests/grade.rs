use pgnpg::degree::Degree;
use pgnpg::grade::{split_alpha_numeric, Grade};
use pgnpg::level::Level;
use pgnpg::sex::Sex;
use pgnpg::text::{parse_u16, str_eq, str_le, u16_to_string};

#[test]
fn degree_codes() {
    assert_eq!(Degree::from_str("H"), Ok(Degree::HighSchool));
    assert_eq!(Degree::from_str("B"), Ok(Degree::Bachelor));
    assert_eq!(Degree::from_str("M"), Ok(Degree::Master));
    assert_eq!(Degree::from_str("D"), Ok(Degree::Doctor));
    assert_eq!(Degree::from_str("b"), Err("invalid degree step".to_string()));
    assert_eq!(Degree::from_str(""), Err("invalid degree step".to_string()));
    assert_eq!(Degree::from_str("BB"), Err("invalid degree step".to_string()));
    for d in [Degree::HighSchool, Degree::Bachelor, Degree::Master, Degree::Doctor] {
        assert_eq!(Degree::from_str(&d.to_string()), Ok(d));
    }
    assert_eq!(Degree::Master.to_string(), "M");
}

#[test]
fn level_labels() {
    assert_eq!(Level::from_str("新人"), Ok(Level::Newbie));
    assert_eq!(Level::from_str("アシスタント"), Ok(Level::Assistant));
    assert_eq!(Level::from_str("ノーマル"), Ok(Level::Normal));
    assert_eq!(Level::from_str("リード"), Ok(Level::Lead));
    assert_eq!(Level::from_str("lead"), Err("invalid value".to_string()));
    for l in [Level::Newbie, Level::Assistant, Level::Normal, Level::Lead] {
        assert_eq!(Level::from_str(l.as_str()), Ok(l));
    }
    assert_eq!(Level::Lead.to_string(), "リード");
}

#[test]
fn sex_labels() {
    assert_eq!(Sex::from_str("男性"), Ok(Sex::Male));
    assert_eq!(Sex::from_str("女性"), Ok(Sex::Female));
    assert_eq!(Sex::from_str("男"), Err("invalid value".to_string()));
    assert_eq!(Sex::Female.to_string(), "女性");
    assert_eq!(Sex::Male.as_str(), "男性");
}

#[test]
fn split_before_the_first_digit() {
    assert_eq!(split_alpha_numeric("B3"), ("B", "3"));
    assert_eq!(split_alpha_numeric("abc123def4"), ("abc", "123def4"));
    assert_eq!(split_alpha_numeric("123"), ("", "123"));
    assert_eq!(split_alpha_numeric("abc"), ("abc", ""));
    assert_eq!(split_alpha_numeric(""), ("", ""));
    assert_eq!(split_alpha_numeric("修士1"), ("修士", "1"));
    assert_eq!(split_alpha_numeric("あxyz1"), ("あxyz", "1"));
    assert_eq!(split_alpha_numeric("１2"), ("１", "2"));
}

#[test]
fn grades_of_degree_and_year() {
    assert_eq!(Grade::from_str("B3"), Ok(Grade { degree_step: Degree::Bachelor, nth: 3 }));
    assert_eq!(Grade::from_str("M1"), Ok(Grade { degree_step: Degree::Master, nth: 1 }));
    assert_eq!(Grade::from_str("D12"), Ok(Grade { degree_step: Degree::Doctor, nth: 12 }));
    assert_eq!(Grade::from_str("H2"), Ok(Grade { degree_step: Degree::HighSchool, nth: 2 }));
    assert_eq!(Grade::from_str("B007"), Ok(Grade { degree_step: Degree::Bachelor, nth: 7 }));
    assert_eq!(Grade::from_str("B65535"), Ok(Grade { degree_step: Degree::Bachelor, nth: 65535 }));
    assert_eq!(Grade::from_str("B65536"), Err("invalid grade".to_string()));
    assert_eq!(Grade::from_str("B"), Err("invalid grade".to_string()));
    assert_eq!(Grade::from_str("B3x"), Err("invalid grade".to_string()));
    assert_eq!(Grade::from_str("3"), Err("invalid degree step".to_string()));
    assert_eq!(Grade::from_str("X3"), Err("invalid degree step".to_string()));
    assert_eq!(Grade::from_str(""), Err("invalid degree step".to_string()));
    assert_eq!(Grade::from_str("修士1"), Err("invalid degree step".to_string()));
}

#[test]
fn grades_of_high_school() {
    let h = |n| Ok(Grade { degree_step: Degree::HighSchool, nth: n });
    assert_eq!(Grade::from_str("高校1年生"), h(1));
    assert_eq!(Grade::from_str("高校二年生"), h(2));
    assert_eq!(Grade::from_str("高校3"), h(3));
    assert_eq!(Grade::from_str("高校三"), h(3));
    assert_eq!(Grade::from_str("高校一"), h(1));
    assert_eq!(Grade::from_str("高校2年生"), h(2));
    assert_eq!(Grade::from_str("高校高校1"), h(1));
    assert_eq!(Grade::from_str("高校年生1年生"), h(1));
    assert_eq!(Grade::from_str("高1"), Err("invalid grade".to_string()));
    assert_eq!(Grade::from_str("高校4年生"), Err("invalid grade".to_string()));
    assert_eq!(Grade::from_str("高校"), Err("invalid grade".to_string()));
    assert_eq!(Grade::from_str("高校年生1"), Err("invalid grade".to_string()));
    assert_eq!(Grade::from_str("高高校校1"), Err("invalid grade".to_string()));
}

#[test]
fn grades_of_alumni_are_refused() {
    assert_eq!(Grade::from_str("OB - 2020卒"), Err("invalid degree step".to_string()));
    assert_eq!(Grade::from_str("OB - 卒"), Err("invalid degree step".to_string()));
}

#[test]
fn grade_text_reads_back() {
    for (d, n) in [(Degree::Bachelor, 3u16), (Degree::Master, 10), (Degree::Doctor, 0), (Degree::HighSchool, 65535)] {
        let g = Grade { degree_step: d, nth: n };
        assert_eq!(Grade::from_str(&g.to_string()), Ok(g));
    }
    assert_eq!(Grade { degree_step: Degree::Bachelor, nth: 3 }.to_string(), "B3");
    assert_eq!(Grade { degree_step: Degree::Doctor, nth: 120 }.to_string(), "D120");
}

#[test]
fn decimal_numbers() {
    assert_eq!(parse_u16("0"), Some(0));
    assert_eq!(parse_u16("42"), Some(42));
    assert_eq!(parse_u16("00042"), Some(42));
    assert_eq!(parse_u16("65535"), Some(65535));
    assert_eq!(parse_u16("65536"), None);
    assert_eq!(parse_u16("99999999999999999999"), None);
    assert_eq!(parse_u16(""), None);
    assert_eq!(parse_u16("4 2"), None);
    assert_eq!(parse_u16("-1"), None);
    assert_eq!(parse_u16("１"), None);
    assert_eq!(u16_to_string(0), "0");
    assert_eq!(u16_to_string(9), "9");
    assert_eq!(u16_to_string(10), "10");
    assert_eq!(u16_to_string(65535), "65535");
    for n in [0u16, 1, 9, 10, 99, 100, 1234, 40000, 65535] {
        assert_eq!(u16_to_string(n), n.to_string());
        assert_eq!(parse_u16(&u16_to_string(n)), Some(n));
    }
}

#[test]
fn text_comparisons() {
    assert!(str_eq("", ""));
    assert!(str_eq("新人", "新人"));
    assert!(!str_eq("新人", "新"));
    assert!(!str_eq("ab", "ac"));
    for (a, b) in [("", ""), ("", "a"), ("a", "b"), ("a", "ab"), ("ab", "b"), ("01ARZ", "01BX5"), ("z", "あ"), ("a", "a")] {
        assert!(str_le(a, b));
        assert_eq!(str_le(a, b), a <= b);
        assert_eq!(str_le(b, a), b <= a);
    }
    assert!(!str_le("b", "a"));
    assert!(!str_le("ab", "a"));
}
