//! Exercises the JSON column codecs on concrete values.

use portfolio_api::columns::{
    decode_activity_col, decode_education_col, decode_languages_col, decode_social_links_col,
    decode_strings_col, decode_toplang_col, encode_activity_col, encode_education_col,
    encode_languages_col, encode_social_links_col, encode_strings_col, encode_toplang_col,
};
use portfolio_api::models::{Education, Language, RecentActivity, SocialLink, TopLanguage};

#[test]
fn strings_round_trip_plain() {
    let v = vec!["Rust".to_string(), "TypeScript".to_string()];
    let col = encode_strings_col(&v);
    assert_eq!(col, "[\"Rust\",\"TypeScript\"]");
    assert_eq!(decode_strings_col(&col), Some(v));
}

#[test]
fn strings_round_trip_empty() {
    let v: Vec<String> = vec![];
    let col = encode_strings_col(&v);
    assert_eq!(col, "[]");
    assert_eq!(decode_strings_col(&col), Some(v));
}

#[test]
fn strings_round_trip_duplicates_preserve_order() {
    let v = vec!["a".to_string(), "b".to_string(), "a".to_string()];
    let col = encode_strings_col(&v);
    assert_eq!(decode_strings_col(&col), Some(v));
}

#[test]
fn strings_round_trip_escapes() {
    let v = vec![
        "line\nbreak".to_string(),
        "quote \" and backslash \\".to_string(),
        "tab\tcr\r".to_string(),
        "control \u{1} char".to_string(),
        "acentuação já".to_string(),
    ];
    let col = encode_strings_col(&v);
    assert_eq!(decode_strings_col(&col), Some(v));
}

#[test]
fn strings_decode_rejects_malformed() {
    assert_eq!(decode_strings_col("not json"), None);
    assert_eq!(decode_strings_col("[\"unterminated"), None);
    assert_eq!(decode_strings_col("[\"a\",]"), None);
    assert_eq!(decode_strings_col("[\"a\"] trailing"), None);
    assert_eq!(decode_strings_col(""), None);
}

#[test]
fn social_links_round_trip() {
    let v = vec![
        SocialLink {
            title: "GitHub".to_string(),
            url: "https://github.com/someone".to_string(),
            icon: "github".to_string(),
        },
        SocialLink {
            title: "Blog \"pessoal\"".to_string(),
            url: "https://example.com".to_string(),
            icon: "rss".to_string(),
        },
    ];
    let col = encode_social_links_col(&v);
    assert_eq!(
        &col[..40],
        "[{\"title\":\"GitHub\",\"url\":\"https://github"
    );
    assert_eq!(decode_social_links_col(&col), Some(v));
}

#[test]
fn education_and_languages_round_trip() {
    let e = vec![Education {
        degree: "BSc".to_string(),
        institution: "Somewhere".to_string(),
        period: "2015-2019".to_string(),
    }];
    let l = vec![
        Language { name: "Portuguese".to_string(), level: "Native".to_string() },
        Language { name: "English".to_string(), level: "Fluent".to_string() },
    ];
    assert_eq!(decode_education_col(&encode_education_col(&e)), Some(e));
    assert_eq!(decode_languages_col(&encode_languages_col(&l)), Some(l));
}

#[test]
fn top_languages_round_trip_with_numbers() {
    let v = vec![
        TopLanguage { name: "Rust".to_string(), percentage: 62 },
        TopLanguage { name: "Other".to_string(), percentage: 0 },
        TopLanguage { name: "Deficit".to_string(), percentage: -5 },
    ];
    let col = encode_toplang_col(&v);
    assert_eq!(
        col,
        "[{\"name\":\"Rust\",\"percentage\":62},{\"name\":\"Other\",\"percentage\":0},{\"name\":\"Deficit\",\"percentage\":-5}]"
    );
    assert_eq!(decode_toplang_col(&col), Some(v));
}

#[test]
fn recent_activity_round_trip() {
    let v = vec![RecentActivity {
        date: "2025-04-10T12:00:00Z".to_string(),
        message: "pushevented to repo".to_string(),
        repo: "repo".to_string(),
    }];
    let col = encode_activity_col(&v);
    assert_eq!(decode_activity_col(&col), Some(v));
}
