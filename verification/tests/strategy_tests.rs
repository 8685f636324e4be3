use i18n_pseudo::strategies::accents::{accent_char, AccentStrategy};
use i18n_pseudo::strategies::brackets::BracketStrategy;
use i18n_pseudo::strategies::cjk::{CjkStrategy, CJK_CHARS};
use i18n_pseudo::strategies::expansion::{is_vowel, ExpansionStrategy};
use i18n_pseudo::strategies::rtl::RtlStrategy;
use i18n_pseudo::strategies::special_chars::{SpecialCharsStrategy, SPECIAL_CHARS};
use i18n_pseudo::strategies::unicode_stress::UnicodeStressStrategy;
use i18n_pseudo::strategies::Strategy;

// ─── Accents ────────────────────────────────────────────────────────────────

#[test]
fn accent_basic() {
    let s = AccentStrategy;
    assert_eq!(s.transform("Hello"), "Ĥéľľó");
}

#[test]
fn accent_empty() {
    let s = AccentStrategy;
    assert_eq!(s.transform(""), "");
}

#[test]
fn accent_unicode_passthrough() {
    let s = AccentStrategy;
    assert_eq!(s.transform("中文"), "中文");
}

#[test]
fn accent_numbers_unchanged() {
    let s = AccentStrategy;
    assert_eq!(s.transform("123"), "123");
}

#[test]
fn accent_whitespace_unchanged() {
    let s = AccentStrategy;
    assert_eq!(s.transform("  \t\n"), "  \t\n");
}

#[test]
fn accents_basic_transform() {
    let s = AccentStrategy;
    assert_eq!(s.transform("Hello"), "Ĥéľľó");
}

#[test]
fn accents_empty_input() {
    let s = AccentStrategy;
    assert_eq!(s.transform(""), "");
}

#[test]
fn non_ascii_passthrough() {
    let s = AccentStrategy;
    // Already-unicode characters should pass through unchanged
    assert_eq!(s.transform("中文"), "中文");
}

#[test]
fn mixed_case() {
    let s = AccentStrategy;
    let result = s.transform("AbCd");
    assert_eq!(result, "ÁƀÇð");
}

#[test]
fn numbers_and_punctuation_unchanged() {
    let s = AccentStrategy;
    assert_eq!(s.transform("123!@#"), "123!@#");
}

#[test]
fn full_alphabet() {
    let s = AccentStrategy;
    let lower = s.transform("abcdefghijklmnopqrstuvwxyz");
    // Every char should be different from the original
    for (orig, transformed) in "abcdefghijklmnopqrstuvwxyz".chars().zip(lower.chars()) {
        assert_ne!(orig, transformed, "char '{orig}' was not transformed");
    }
}

#[test]
fn accent_full_tables() {
    let s = AccentStrategy;
    assert_eq!(
        s.transform("abcdefghijklmnopqrstuvwxyz"),
        "áƀçðéƒǵĥíĵƙľɱñóþꝗŕšťúṽẃẋýž"
    );
    assert_eq!(
        s.transform("ABCDEFGHIJKLMNOPQRSTUVWXYZ"),
        "ÁƁÇÐÉƑǴĤÍĴƘĽṀÑÓÞꝖŔŠŤÚṼẂẊÝŽ"
    );
}

#[test]
fn accent_char_outside_letters() {
    assert_eq!(accent_char('m'), 'ɱ');
    assert_eq!(accent_char('M'), 'Ṁ');
    assert_eq!(accent_char('@'), '@');
    assert_eq!(accent_char('['), '[');
    assert_eq!(accent_char('`'), '`');
    assert_eq!(accent_char('é'), 'é');
}

#[test]
fn accent_keeps_length() {
    let s = AccentStrategy;
    let input = "Grüße, Zoë!";
    assert_eq!(s.transform(input).chars().count(), input.chars().count());
}

// ─── CJK ────────────────────────────────────────────────────────────────────

#[test]
fn cjk_basic() {
    let s = CjkStrategy;
    let result = s.transform("Hello World");
    assert!(result.len() > "Hello World".len());
}

#[test]
fn cjk_empty() {
    let s = CjkStrategy;
    assert_eq!(s.transform(""), "");
}

#[test]
fn cjk_already_unicode() {
    let s = CjkStrategy;
    let result = s.transform("日本語テスト");
    assert!(result.chars().count() > 6);
    // Should still insert CJK chars periodically
    assert!(result.len() > "日本語テスト".len());
}

#[test]
fn cjk_basic_transform() {
    let s = CjkStrategy;
    let result = s.transform("Hello World");
    assert!(result.contains('中'), "Should contain CJK char: {result}");
    assert!(result.len() > "Hello World".len());
}

#[test]
fn cjk_empty_input() {
    let s = CjkStrategy;
    assert_eq!(s.transform(""), "");
}

#[test]
fn short_input_no_cjk() {
    let s = CjkStrategy;
    // Less than 5 chars: no CJK inserted
    assert_eq!(s.transform("Hi"), "Hi");
}

#[test]
fn exact_five_chars() {
    let s = CjkStrategy;
    let result = s.transform("abcde");
    assert_eq!(result, "abcde中");
}

#[test]
fn cycles_through_chars() {
    let s = CjkStrategy;
    // 15 chars => CJK at positions 5, 10, 15
    let result = s.transform("abcdeabcdeabcde");
    let cjk_count = result.chars().filter(|c| CJK_CHARS.contains(c)).count();
    assert_eq!(cjk_count, 3);
}

#[test]
fn cjk_exact_cycle() {
    let s = CjkStrategy;
    let input = "a".repeat(40);
    let expected = "aaaaa中aaaaa文aaaaa韓aaaaa国aaaaa語aaaaa日aaaaa本aaaaa中";
    assert_eq!(s.transform(&input), expected);
}

#[test]
fn cjk_layout_law() {
    // the i-th input character lands at i + i / 5; n + n / 5 characters in all
    let s = CjkStrategy;
    let input: Vec<char> = "The quick brown fox jumps".chars().collect();
    let text: String = input.iter().collect();
    let out: Vec<char> = s.transform(&text).chars().collect();
    assert_eq!(out.len(), input.len() + input.len() / 5);
    for (i, c) in input.iter().enumerate() {
        assert_eq!(out[i + i / 5], *c);
    }
}

// ─── Special Chars ──────────────────────────────────────────────────────────

#[test]
fn special_basic() {
    let s = SpecialCharsStrategy;
    let result = s.transform("Hello World!");
    assert!(result.contains('§'));
}

#[test]
fn special_empty() {
    let s = SpecialCharsStrategy;
    assert_eq!(s.transform(""), "");
}

#[test]
fn special_already_unicode() {
    let s = SpecialCharsStrategy;
    let input = "日本語テストのテスト";
    let result = s.transform(input);
    assert!(result.chars().count() > input.chars().count());
}

#[test]
fn special_chars_basic_transform() {
    let s = SpecialCharsStrategy;
    let result = s.transform("Hello World!");
    assert!(result.contains('§'), "Should contain special char: {result}");
}

#[test]
fn special_chars_empty_input() {
    let s = SpecialCharsStrategy;
    assert_eq!(s.transform(""), "");
}

#[test]
fn short_input_no_special() {
    let s = SpecialCharsStrategy;
    assert_eq!(s.transform("Hi"), "Hi");
}

#[test]
fn exact_seven_chars() {
    let s = SpecialCharsStrategy;
    let result = s.transform("abcdefg");
    assert_eq!(result, "abcdefg§");
}

#[test]
fn special_chars_already_unicode() {
    let s = SpecialCharsStrategy;
    let result = s.transform("日本語テストのテスト");
    // 10 chars, should insert at position 7
    assert!(result.chars().any(|c| SPECIAL_CHARS.contains(&c)));
}

#[test]
fn special_chars_cycle_wraps() {
    let s = SpecialCharsStrategy;
    let input = "x".repeat(7 * 23);
    let out = s.transform(&input);
    let marks: Vec<char> = out.chars().filter(|c| *c != 'x').collect();
    let mut expected: Vec<char> = SPECIAL_CHARS.to_vec();
    expected.push('§');
    assert_eq!(marks, expected);
}

// ─── Expansion ──────────────────────────────────────────────────────────────

#[test]
fn expansion_basic() {
    let s = ExpansionStrategy::new(1500);
    let result = s.transform("Hello");
    // 5 * 1.5 = 7.5 -> 8 chars
    assert!(
        result.chars().count() >= 8,
        "Got: {} ({})",
        result,
        result.chars().count()
    );
}

#[test]
fn expansion_empty() {
    let s = ExpansionStrategy::new(2000);
    assert_eq!(s.transform(""), "");
}

#[test]
fn expansion_ratio_one() {
    let s = ExpansionStrategy::new(1000);
    assert_eq!(s.transform("Hello"), "Hello");
}

#[test]
fn expansion_already_unicode() {
    let s = ExpansionStrategy::new(1500);
    let result = s.transform("ĥéľľó");
    assert!(result.chars().count() > 5);
}

#[test]
fn basic_expansion() {
    let s = ExpansionStrategy::new(1300);
    let result = s.transform("Hello");
    // 5 chars * 1.3 = 6.5, ceil = 7 chars needed
    assert!(
        result.chars().count() >= 7,
        "Expected at least 7 chars, got {} ('{}')",
        result.chars().count(),
        result
    );
}

#[test]
fn expansion_empty_input() {
    let s = ExpansionStrategy::new(1500);
    assert_eq!(s.transform(""), "");
}

#[test]
fn ratio_one_no_change() {
    let s = ExpansionStrategy::new(1000);
    assert_eq!(s.transform("Hello"), "Hello");
}

#[test]
fn high_ratio() {
    let s = ExpansionStrategy::new(3000);
    let result = s.transform("Hi");
    // 2 * 3.0 = 6 chars
    assert!(
        result.chars().count() >= 6,
        "Expected at least 6 chars, got {} ('{}')",
        result.chars().count(),
        result
    );
}

#[test]
fn no_vowels_uses_padding() {
    let s = ExpansionStrategy::new(2000);
    let result = s.transform("xyz");
    // 3 * 2.0 = 6 chars, no vowels to expand, so padding appended
    assert!(result.chars().count() >= 6);
    assert!(result.starts_with("xyz"));
}

#[test]
fn clamped_to_max() {
    let s = ExpansionStrategy::new(5000);
    // Should clamp to 3.0
    let result = s.transform("ab");
    // 2 * 3.0 = 6
    assert!(result.chars().count() >= 6);
}

#[test]
fn expansion_already_unicode_input() {
    let s = ExpansionStrategy::new(1500);
    let result = s.transform("ĥéľľó");
    assert!(result.chars().count() > 5);
}

#[test]
fn expansion_exact_outputs() {
    assert_eq!(ExpansionStrategy::new(1300).transform("Hello"), "Heelloo");
    assert_eq!(ExpansionStrategy::new(2000).transform("xyz"), "xyz~-.");
    assert_eq!(ExpansionStrategy::new(3000).transform("Hi"), "Hii~-.");
    assert_eq!(ExpansionStrategy::new(1500).transform("ĥéľľó"), "ĥééľľóó~");
    assert_eq!(ExpansionStrategy::new(3000).transform("ab"), "aab~-.");
}

#[test]
fn expansion_clamps_ratio() {
    assert_eq!(ExpansionStrategy::new(5000).ratio_permille(), 3000);
    assert_eq!(ExpansionStrategy::new(200).ratio_permille(), 1000);
    assert_eq!(ExpansionStrategy::new(1700).ratio_permille(), 1700);
    assert_eq!(ExpansionStrategy::new(200).transform("Hello"), "Hello");
}

#[test]
fn expansion_length_law() {
    // the output has exactly max(n, ceil(n * ratio)) characters
    for ratio in [1000u32, 1100, 1300, 1500, 2000, 2500, 3000] {
        for text in ["a", "Hello", "xyz", "Some longer sentence here", "ĥéľľó"] {
            let n = text.chars().count();
            let target = (n * ratio as usize + 999) / 1000;
            let out = ExpansionStrategy::new(ratio).transform(text);
            assert_eq!(out.chars().count(), target.max(n), "{ratio} {text}");
        }
    }
}

#[test]
fn vowels_recognized() {
    for c in "aeiouAEIOUáéíóúÁÉÍÓÚ".chars() {
        assert!(is_vowel(c), "{c}");
    }
    for c in "bcyYàẃ1 ".chars() {
        assert!(!is_vowel(c), "{c}");
    }
}

// ─── Brackets ───────────────────────────────────────────────────────────────

#[test]
fn brackets_basic() {
    let s = BracketStrategy;
    assert_eq!(s.transform("Hello"), "[Hello]");
}

#[test]
fn brackets_empty() {
    let s = BracketStrategy;
    assert_eq!(s.transform(""), "");
}

#[test]
fn brackets_already_unicode() {
    let s = BracketStrategy;
    assert_eq!(s.transform("日本語"), "[日本語]");
}

#[test]
fn brackets_basic_transform() {
    let s = BracketStrategy;
    assert_eq!(s.transform("Hello"), "[Hello]");
}

#[test]
fn brackets_empty_input() {
    let s = BracketStrategy;
    assert_eq!(s.transform(""), "");
}

#[test]
fn nested_brackets() {
    let s = BracketStrategy;
    assert_eq!(s.transform("[inner]"), "[[inner]]");
}

// ─── RTL ────────────────────────────────────────────────────────────────────

#[test]
fn rtl_basic() {
    let s = RtlStrategy;
    let result = s.transform("Hello");
    assert!(result.starts_with('\u{202B}'));
    assert!(result.ends_with('\u{202C}'));
    assert!(result.contains("Hello"));
}

#[test]
fn rtl_empty() {
    let s = RtlStrategy;
    assert_eq!(s.transform(""), "");
}

#[test]
fn rtl_already_unicode() {
    let s = RtlStrategy;
    let result = s.transform("مرحبا");
    assert!(result.starts_with('\u{202B}'));
    assert!(result.ends_with('\u{202C}'));
}

#[test]
fn rtl_basic_transform() {
    let s = RtlStrategy;
    let result = s.transform("Hello");
    assert!(result.starts_with('\u{202B}'));
    assert!(result.ends_with('\u{202C}'));
    assert!(result.contains("Hello"));
}

#[test]
fn rtl_empty_input() {
    let s = RtlStrategy;
    assert_eq!(s.transform(""), "");
}

#[test]
fn markers_present() {
    let s = RtlStrategy;
    let result = s.transform("Test");
    // Should be exactly RLE + "Test" + PDF
    assert_eq!(result.chars().count(), 4 + 2);
    assert_eq!(result, "\u{202B}Test\u{202C}");
}

// ─── Unicode Stress ─────────────────────────────────────────────────────────

#[test]
fn unicode_stress_basic() {
    let s = UnicodeStressStrategy;
    let result = s.transform("Hello World");
    assert!(result.len() > "Hello World".len());
}

#[test]
fn unicode_stress_empty() {
    let s = UnicodeStressStrategy;
    assert_eq!(s.transform(""), "");
}

#[test]
fn unicode_stress_already_unicode() {
    let s = UnicodeStressStrategy;
    let result = s.transform("日本語テスト");
    assert!(result.len() > "日本語テスト".len());
}

#[test]
fn unicode_stress_has_combining() {
    let s = UnicodeStressStrategy;
    let result = s.transform("abcdef");
    let has_combining = result
        .chars()
        .any(|c| ('\u{0300}'..='\u{036F}').contains(&c));
    assert!(
        has_combining,
        "Should contain combining diacritics: {result}"
    );
}

#[test]
fn unicode_stress_basic_transform() {
    let s = UnicodeStressStrategy;
    let result = s.transform("Hello World");
    assert!(result.len() > "Hello World".len());
}

#[test]
fn unicode_stress_empty_input() {
    let s = UnicodeStressStrategy;
    assert_eq!(s.transform(""), "");
}

#[test]
fn contains_combining_diacritics() {
    let s = UnicodeStressStrategy;
    let result = s.transform("abcdef");
    // After char 3 and 6, we should see combining diacritics
    let has_combining = result
        .chars()
        .any(|c| ('\u{0300}'..='\u{036F}').contains(&c));
    assert!(
        has_combining,
        "Should contain combining diacritics: {result}"
    );
}

#[test]
fn contains_zwj() {
    let s = UnicodeStressStrategy;
    let result = s.transform("abcdefghijklmnop"); // 16 chars
    let has_zwj = result.chars().any(|c| c == '\u{200D}');
    assert!(has_zwj, "Should contain ZWJ: {result}");
}

#[test]
fn unicode_stress_already_unicode_input() {
    let s = UnicodeStressStrategy;
    let result = s.transform("日本語テスト");
    assert!(result.len() > "日本語テスト".len());
}

#[test]
fn unicode_stress_exact_output() {
    let s = UnicodeStressStrategy;
    assert_eq!(s.transform("abcdef"), "abc\u{0300}def\u{0301}");
    // punctuation at a multiple of 3 gets no diacritic
    assert_eq!(s.transform("ab!cd?"), "ab!cd?");
    assert_eq!(
        s.transform("abcdefghijkl"),
        "abc\u{0300}def\u{0301}gh\u{200D}i\u{0302}jkl\u{0303}\u{1F468}\u{200D}\u{1F469}\u{200D}\u{1F467}"
    );
}

#[test]
fn unicode_stress_growth_law() {
    // at least one ZWJ per 8 characters and an emoji sequence per 12
    let s = UnicodeStressStrategy;
    for n in [0usize, 7, 8, 12, 24, 50] {
        let input = "-".repeat(n);
        let out = s.transform(&input);
        assert!(out.chars().count() >= n + n / 8 + 3 * (n / 12), "{n}");
    }
}

// ─── Private Use Area characters ────────────────────────────────────────────

#[test]
fn private_use_chars_kept_by_every_strategy() {
    let text = "a\u{E000}bcdefg\u{E001}hijklmnopqrst\u{E002}uvw";
    let tokens: Vec<char> = text.chars().filter(|c| ('\u{E000}'..='\u{F8FF}').contains(c)).collect();
    let outputs = vec![
        AccentStrategy.transform(text),
        CjkStrategy.transform(text),
        SpecialCharsStrategy.transform(text),
        UnicodeStressStrategy.transform(text),
        ExpansionStrategy::new(3000).transform(text),
        RtlStrategy.transform(text),
        BracketStrategy.transform(text),
    ];
    for out in outputs {
        let kept: Vec<char> = out.chars().filter(|c| ('\u{E000}'..='\u{F8FF}').contains(c)).collect();
        assert_eq!(kept, tokens, "{out}");
    }
}
