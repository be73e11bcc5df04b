use photo_desk::import::day_dir;
use photo_desk::naming::{
    is_previous_day, next_day, parse_folder, rank, split_day_suffix, suggest, words, KnownFolder,
    Near, Suggestion,
};
use photo_desk::offload::under_library;
use photo_desk::organize::{
    event_folder_name, event_rel_dir, event_rel_dir_for, sanitize, should_publish,
};
use photo_desk::p1::normalized_folder_name;

#[test]
fn days_become_year_folders() {
    assert_eq!(day_dir("2024-08-27"), "2024/2024-08-27");
    assert_eq!(day_dir("1999-01-01"), "1999/1999-01-01");
}

#[test]
fn a_broken_day_stays_as_is() {
    assert_eq!(day_dir(""), "");
    assert_eq!(day_dir("몰라"), "몰라");
}

#[test]
fn folder_names_split_into_date_and_title() {
    assert_eq!(
        parse_folder("2003-02-08 아버지 환갑잔치"),
        (Some("2003-02-08".into()), "아버지 환갑잔치".into())
    );
    assert_eq!(
        parse_folder("2024.08.27 제주"),
        (Some("2024-08-27".into()), "제주".into())
    );
    assert_eq!(
        parse_folder("20240827_여행"),
        (Some("2024-08-27".into()), "여행".into())
    );
    assert_eq!(parse_folder("황금부엉이"), (None, "황금부엉이".into()));
    assert_eq!(
        parse_folder("2003-02-02"),
        (Some("2003-02-02".into()), "".into())
    );
}

#[test]
fn a_year_alone_is_not_a_date() {
    assert_eq!(parse_folder("2016"), (None, "2016".into()));
    assert_eq!(parse_folder("연도별"), (None, "연도별".into()));
}

#[test]
fn day_counters_increment() {
    assert_eq!(
        split_day_suffix("거제통영 가족여행 2일차"),
        ("거제통영 가족여행".into(), Some(2))
    );
    assert_eq!(split_day_suffix("하와이"), ("하와이".into(), None));
    assert_eq!(next_day("하와이"), "하와이 2일차");
    assert_eq!(next_day("하와이 2일차"), "하와이 3일차");
    assert_eq!(next_day("하와이 10일차"), "하와이 11일차");
}

#[test]
fn words_skip_noise() {
    assert_eq!(
        words("거제통영 가족여행 2일차"),
        vec!["거제통영", "가족여행"]
    );
    assert_eq!(words("2024 생일"), vec!["생일"], "숫자만인 것은 버린다");
    assert!(words("a").is_empty(), "한 글자는 낱말로 치지 않는다");
}

#[test]
fn previous_day_across_month_and_year_ends() {
    assert!(is_previous_day("2024-08-26", "2024-08-27"));
    assert!(is_previous_day("2024-07-31", "2024-08-01"), "달을 넘어도");
    assert!(is_previous_day("2023-12-31", "2024-01-01"), "해를 넘어도");
    assert!(is_previous_day("2024-02-29", "2024-03-01"), "윤년도");
    assert!(!is_previous_day("2024-08-27", "2024-08-27"));
    assert!(!is_previous_day("2024-08-27", "2024-08-29"));
    assert!(
        !is_previous_day("2024-08-27", "2024-08-26"),
        "거꾸로는 아니다"
    );
}

#[test]
fn only_dated_folders_feed_the_word_list() {
    let dated = parse_folder("2024-08-27 가족여행");
    let plain = parse_folder("output");
    assert!(dated.0.is_some());
    assert!(plain.0.is_none(), "날짜 없는 폴더는 이벤트가 아니다");
}

#[test]
fn ranking_drops_duplicates_and_keeps_the_best() {
    let s = |t: &str, n: i32| Suggestion {
        title: t.into(),
        why: String::new(),
        score: n,
    };
    let r = rank(vec![s("여행", 10), s("생일", 50), s("여행", 90)], 10);
    assert_eq!(r.len(), 2);
    assert_eq!(r[0].title, "여행", "같은 제목은 높은 점수만 남는다");
    assert_eq!(r[0].score, 90);
}

#[test]
fn under_library_strips_the_library_prefix() {
    assert_eq!(under_library("", "2015/여행"), Some("2015/여행".into()));
    assert_eq!(under_library("사진", "사진/2015/여행"), Some("2015/여행".into()));
    assert_eq!(under_library("사진", "사진"), None);
    assert_eq!(under_library("사진", "다른/2015"), None);
}

#[test]
fn my_photos_are_flat_and_shared_is_by_year() {
    assert_eq!(event_rel_dir_for(1, "2024-08-27", "거제"), "2024-08-27 거제");
    assert_eq!(event_rel_dir_for(2, "2024-08-27", "거제"), "2024/2024-08-27 거제");
    assert_eq!(event_rel_dir_for(0, "2024-08-27", ""), "2024/2024-08-27");
}

#[test]
fn only_my_photos_to_shared_uses_publication_copy() {
    assert!(should_publish(&[1], 2));
    assert!(!should_publish(&[0], 2));
    assert!(!should_publish(&[1], 1));
    assert!(!should_publish(&[0, 1], 2));
}

#[test]
fn folder_names_are_built_the_way_the_nas_does() {
    assert_eq!(
        event_folder_name("2024-08-27", " 거제통영 가족여행 "),
        "2024-08-27 거제통영 가족여행"
    );
    assert_eq!(event_folder_name("2024-08-27", ""), "2024-08-27", "제목이 없으면 날짜만");
    assert_eq!(event_rel_dir("2024-08-27", "여행"), "2024/2024-08-27 여행");
}

#[test]
fn path_separators_never_leak_into_a_name() {
    assert_eq!(sanitize("가족/여행"), "가족-여행");
    assert_eq!(sanitize("a:b\\c"), "a-b-c");
    assert_eq!(sanitize("  ..점.  "), "점");
    assert_eq!(event_rel_dir("2024-08-27", "제주/서귀포"), "2024/2024-08-27 제주-서귀포");
}

#[test]
fn normalization_preserves_titles_and_rejects_bad_calendar_dates() {
    assert_eq!(
        normalized_folder_name("20240827_거제 여행").map(|value| value.0),
        Some("2024-08-27 거제 여행".into())
    );
    assert_eq!(
        normalized_folder_name("2024.08.27-생일").map(|value| value.0),
        Some("2024-08-27 생일".into())
    );
    assert!(normalized_folder_name("2024_02_30 오류").is_none());
    assert!(normalized_folder_name("2024-08-27 이미 정상").is_none());
}

// --- further cases ---

fn known(date: Option<&str>, title: &str) -> KnownFolder {
    KnownFolder {
        date: date.map(|d| d.to_string()),
        title: title.to_string(),
        near: None,
    }
}

#[test]
fn suggestions_come_from_anniversaries_yesterday_and_frequent_words() {
    let folders = vec![
        known(Some("2023-08-27"), "주원 생일"),
        known(Some("2024-08-26"), "제주 여행"),
        known(Some("2022-01-01"), "가족 모임"),
        known(Some("2021-01-01"), "가족 소풍"),
        known(Some("2020-01-01"), "가족 여행"),
        known(None, "output"),
    ];
    let r = suggest(Some("2024-08-27"), &folders, 10);
    let titles: Vec<&str> = r.iter().map(|s| s.title.as_str()).collect();
    assert_eq!(titles, vec!["제주 여행 2일차", "주원 생일", "가족"]);
    assert_eq!(r[0].score, 120);
    assert_eq!(r[0].why, "어제 「제주 여행」에서 이어집니다");
    assert_eq!(r[1].score, 100);
    assert_eq!(r[1].why, "2023에도 이 이름을 썼습니다");
    assert_eq!(r[2].why, "3번 쓴 낱말");
    assert_eq!(r[2].score, 10);
}

#[test]
fn no_photos_no_suggestions_and_the_limit_holds() {
    let folders = vec![known(Some("2023-08-27"), "주원 생일")];
    assert!(suggest(None, &folders, 10).is_empty());
    assert!(suggest(Some("2024-08-27"), &folders, 0).is_empty());
}

#[test]
fn a_nearby_place_proposes_its_title() {
    let folders = vec![KnownFolder {
        date: None,
        title: "황금부엉이".into(),
        near: Some(Near {
            score: 75,
            why: "1.5km 안에서 찍었던 곳".into(),
        }),
    }];
    let r = suggest(Some("2024-08-27"), &folders, 5);
    assert_eq!(r.len(), 1);
    assert_eq!(r[0].title, "황금부엉이");
    assert_eq!(r[0].score, 75);
}

#[test]
fn ranking_orders_by_score_then_title_and_drops_empty_titles() {
    let s = |t: &str, w: &str, n: i32| Suggestion {
        title: t.into(),
        why: w.into(),
        score: n,
    };
    let r = rank(
        vec![s("b", "1", 10), s("", "x", 99), s("a", "2", 10), s("b", "3", 10), s("c", "4", 20)],
        2,
    );
    assert_eq!(r.len(), 2);
    assert_eq!((r[0].title.as_str(), r[0].score), ("c", 20));
    assert_eq!((r[1].title.as_str(), r[1].why.as_str()), ("a", "2"));
    let r = rank(vec![s("b", "first", 10), s("b", "second", 10)], 5);
    assert_eq!(r.len(), 1);
    assert_eq!(r[0].why, "first", "on a tie the earlier one stays");
}

#[test]
fn a_decomposed_hangul_title_is_composed() {
    // 가 as a leading consonant and a vowel (NFD) becomes one syllable (NFC)
    assert_eq!(words("\u{1100}\u{1161}족 여행"), vec!["가족", "여행"]);
}
