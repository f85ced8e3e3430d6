use gptsovits_rs::text::g2p::{
    apply_tone_sandhi, get_english_phonemes, pinyin_to_opencpop, text_to_phonemes,
    text_to_phonemes_with, CmuDict, PinyinTables,
};
use gptsovits_rs::text::normalizer::{
    numbers_fit, normalize_chinese_text, normalize_numbers, number_to_chinese, replace_consecutive_punctuation,
    replace_punctuation, verbalize_digit_run,
};
use gptsovits_rs::text::segmentation::{
    cut0, cut1, cut2, cut3, cut4, cut5, segment_text, split_big_text,
};
use gptsovits_rs::text::symbols::{cleaned_text_to_sequence, SymbolTable};

#[test]
fn test_number_to_chinese() {
    assert_eq!(number_to_chinese(0), "零");
    assert_eq!(number_to_chinese(5), "五");
    assert_eq!(number_to_chinese(12), "十二");
    assert_eq!(number_to_chinese(105), "一百零五");
    assert_eq!(number_to_chinese(2024), "二千零二十四");
}

#[test]
fn test_replace_consecutive_punctuation() {
    assert_eq!(replace_consecutive_punctuation("你好！！！"), "你好!");
    assert_eq!(replace_consecutive_punctuation("真的嗎？？？..."), "真的嗎?");
}

#[test]
fn test_text_to_phonemes_chinese() {
    let text = "你好，世界！";
    let (phones, word2ph, norm_text) = text_to_phonemes(text, "zh", "v2");
    assert!(!phones.is_empty());
    assert_eq!(norm_text, "你好,世界!");
    assert_eq!(word2ph.len(), norm_text.chars().count());
    assert_eq!(word2ph.iter().sum::<usize>(), phones.len());
}

#[test]
fn test_text_to_phonemes_english() {
    let text = "Hello world!";
    let (phones, _word2ph, _norm_text) = text_to_phonemes(text, "en", "v2");
    assert!(!phones.is_empty());
}

#[test]
fn test_cut0() {
    let res = cut0("你好，世界！今天天氣真好。");
    assert_eq!(res.len(), 1);
}

#[test]
fn test_cut3_chinese_period() {
    let res = cut3("第一句話。第二句話。第三句話。");
    assert_eq!(res.len(), 3);
}

#[test]
fn test_cut4_english_period() {
    let res = cut4("Version 3.14 is released. Please test it. All good.");
    assert_eq!(res.len(), 3);
    assert!(res[0].contains("3.14"));
}

#[test]
fn test_cut5_all_punctuations() {
    let res = cut5("你好，世界！今天天氣真好。");
    assert_eq!(res.len(), 3);
    assert_eq!(res[0], "你好，");
    assert_eq!(res[1], "世界！");
    assert_eq!(res[2], "今天天氣真好。");
}

#[test]
fn test_segment_text_dispatch() {
    let res = segment_text("你好，世界！", "cut5");
    assert_eq!(res.len(), 2);

    let res_cut0 = segment_text("你好，世界！", "cut0");
    assert_eq!(res_cut0.len(), 1);
}

// ----- further cases -----

#[test]
fn number_readings_cover_groups_zeros_and_signs() {
    assert_eq!(number_to_chinese(10), "十");
    assert_eq!(number_to_chinese(19), "十九");
    assert_eq!(number_to_chinese(20), "二十");
    assert_eq!(number_to_chinese(1000), "一千");
    assert_eq!(number_to_chinese(1001), "一千零一");
    assert_eq!(number_to_chinese(10000), "一万");
    assert_eq!(number_to_chinese(10005), "一万零五");
    assert_eq!(number_to_chinese(100010), "十万零一十");
    assert_eq!(number_to_chinese(100005000), "一亿零五千");
    assert_eq!(number_to_chinese(10000100), "一千万零一百");
    assert_eq!(number_to_chinese(1000010000), "十亿零一万");
    assert_eq!(number_to_chinese(12345), "一万二千三百四十五");
    assert_eq!(number_to_chinese(123456789), "一亿二千三百四十五万六千七百八十九");
    assert_eq!(number_to_chinese(-42), "负四十二");
    assert_eq!(number_to_chinese(1_0000_0000_0000), "一兆");
}

#[test]
fn digit_runs_are_read_as_numbers_or_digit_by_digit() {
    assert_eq!(verbalize_digit_run("2024"), "二千零二十四");
    assert_eq!(verbalize_digit_run("007"), "七");
    // too large for i64: read digit by digit
    assert_eq!(verbalize_digit_run("99999999999999999999"), "九九九九九九九九九九九九九九九九九九九九");
    // a non-ASCII decimal digit makes the run unreadable as a number
    assert_eq!(verbalize_digit_run("1٢3"), "一三");
    assert_eq!(normalize_numbers("第3章共12页"), "第三章共十二页");
    assert_eq!(normalize_numbers("没有数字"), "没有数字");
}

#[test]
fn punctuation_is_mapped_in_rule_order() {
    assert_eq!(replace_punctuation("嗯，好。"), "恩,好.");
    assert_eq!(replace_punctuation("a...b"), "a…b");
    // full stops mapped first, then three dots become an ellipsis
    assert_eq!(replace_punctuation("。。。"), "…");
    assert_eq!(replace_punctuation("a~b～c/d—e$"), "a…b…c,d-e.");
    assert_eq!(replace_punctuation("line\nbreak"), "line.break");
}

#[test]
fn collapsing_is_idempotent_and_leaves_single_marks() {
    let once = replace_consecutive_punctuation("好!?,.…-吗??");
    assert_eq!(once, "好!吗?");
    assert_eq!(replace_consecutive_punctuation(&once), once);
    assert_eq!(replace_consecutive_punctuation("a, b"), "a, b");
}

#[test]
fn normalized_text_is_trimmed() {
    assert_eq!(normalize_chinese_text("  我有2个苹果！！ "), "我有二个苹果!");
    assert_eq!(normalize_chinese_text("\t\u{3000}"), "");
}

#[test]
fn cut1_groups_four_clauses() {
    let res = cut1("一，二，三，四，五，六。");
    assert_eq!(res, vec!["一，二，三，四，".to_string(), "五，六。".to_string()]);
    assert!(cut1("，。！").is_empty());
}

#[test]
fn cut2_gathers_fifty_characters_and_merges_a_short_tail() {
    let long_clause = "这".repeat(60);
    let text = format!("{}，短句。", long_clause);
    let res = cut2(&text);
    assert_eq!(res.len(), 1);
    assert_eq!(res[0], format!("{}，短句。", long_clause));
    assert_eq!(cut2("只有一句"), vec!["只有一句。".to_string()]);
}

#[test]
fn cut5_keeps_decimals_and_trims() {
    let res = cut5("价格是 3.14 元, 好");
    assert_eq!(res, vec!["价格是".to_string(), "3.14".to_string(), "元,".to_string(), "好".to_string()]);
}

#[test]
fn pure_punctuation_gives_no_piece() {
    assert!(cut0("  ，。！ ").is_empty());
    assert!(cut3("。。。").is_empty());
    assert!(cut4("...").is_empty());
    assert!(segment_text("，，", "cut1").is_empty());
    assert!(segment_text("   ", "cut5").is_empty());
}

#[test]
fn unknown_method_falls_back_to_cut5_and_case_is_ignored() {
    assert_eq!(segment_text("甲，乙。", "CUT0"), vec!["甲，乙。".to_string()]);
    assert_eq!(segment_text("甲，乙。", "nonsense"), vec!["甲，".to_string(), "乙。".to_string()]);
}

#[test]
fn long_texts_are_split_at_clause_boundaries() {
    let clause = format!("{}，", "字".repeat(9));
    let text = clause.repeat(30);
    let parts = split_big_text(&text, 50);
    assert!(parts.len() > 1);
    assert!(parts.iter().all(|p| p.chars().count() <= 50));
    assert_eq!(parts.concat(), text);
    assert_eq!(split_big_text("短", 10), vec!["短".to_string()]);
    let seg = segment_text(&"长".repeat(600), "cut0");
    assert_eq!(seg.len(), 1);
    assert_eq!(seg[0].chars().count(), 601);
}

#[test]
fn tone_sandhi_rules() {
    let chars = ['一', '个', '不', '是', '你', '好'];
    let mut pys: Vec<String> = vec!["yi1", "ge4", "bu4", "shi4", "ni3", "hao3"]
        .into_iter()
        .map(String::from)
        .collect();
    apply_tone_sandhi(&chars, &mut pys);
    assert_eq!(pys, vec!["yi2", "ge4", "bu2", "shi4", "ni2", "hao3"]);

    let chars = ['一', '天'];
    let mut pys: Vec<String> = vec!["yi1".to_string(), "tian1".to_string()];
    apply_tone_sandhi(&chars, &mut pys);
    assert_eq!(pys, vec!["yi4", "tian1"]);
}

#[test]
fn pinyin_splits_into_initial_and_final() {
    let tables = PinyinTables::from_entries(
        vec![('好', "hao3".to_string())],
        vec![("hao".to_string(), "h".to_string(), "ao".to_string())],
    );
    assert_eq!(
        pinyin_to_opencpop(&tables, "hao3"),
        Some(("h".to_string(), "ao3".to_string()))
    );
    assert_eq!(
        pinyin_to_opencpop(&tables, "xyz"),
        Some(("AA".to_string(), "a5".to_string()))
    );
    assert_eq!(pinyin_to_opencpop(&tables, ""), None);
}

#[test]
fn english_words_use_the_dictionary_or_letters() {
    let dict = CmuDict::from_entries(vec![(
        "HELLO".to_string(),
        vec!["HH".to_string(), "AH0".to_string(), "L".to_string(), "OW1".to_string()],
    )]);
    assert_eq!(get_english_phonemes(&dict, "hello"), vec!["HH", "AH0", "L", "OW1"]);
    assert_eq!(get_english_phonemes(&dict, "ox"), vec!["OW1", "K", "S"]);
    assert_eq!(get_english_phonemes(&dict, "123"), vec!["UNK"]);
}

#[test]
fn phones_align_with_characters() {
    let tables = PinyinTables::from_entries(
        vec![('你', "ni3".to_string()), ('好', "hao3".to_string())],
        vec![
            ("ni".to_string(), "n".to_string(), "i".to_string()),
            ("hao".to_string(), "h".to_string(), "ao".to_string()),
        ],
    );
    let dict = CmuDict::from_entries(vec![("OK".to_string(), vec!["OW2".to_string(), "K".to_string(), "EY1".to_string()])]);
    let (phones, word2ph, norm) = text_to_phonemes_with(&tables, &dict, "你好，ok！", "zh", "v2");
    assert_eq!(norm, "你好,ok!");
    assert_eq!(phones, vec!["n", "i2", "h", "ao3", ",", "OW2", "K", "EY1", "!"]);
    assert_eq!(word2ph, vec![2, 2, 1, 3, 0, 1]);
    assert_eq!(word2ph.iter().sum::<usize>(), phones.len());

    // no phone at all: a full stop, then leading commas up to four phones
    let (phones, word2ph, norm) = text_to_phonemes("@@", "zh", "v2");
    assert_eq!(norm, "@@");
    assert_eq!(phones, vec![",", ",", ",", "."]);
    assert_eq!(word2ph, vec![3, 0, 1]);

    let (phones, word2ph, _) = text_to_phonemes("!", "zh", "v2");
    assert_eq!(phones, vec![",", ",", ",", "!"]);
    assert_eq!(word2ph, vec![4]);
}

#[test]
fn cmu_dictionary_text_format() {
    let data = "# comment\nHELLO  HH AH0 L OW1\nA  AH0\nA(2)  EY1\n\n  WORLD W ER1 L D\r\n";
    let dict = CmuDict::parse(data);
    assert_eq!(get_english_phonemes(&dict, "hello"), vec!["HH", "AH0", "L", "OW1"]);
    assert_eq!(get_english_phonemes(&dict, "a"), vec!["AH0"]);
    assert_eq!(get_english_phonemes(&dict, "World"), vec!["W", "ER1", "L", "D"]);
    assert_eq!(get_english_phonemes(&dict, "xq"), vec!["K", "S", "K", "W"]);
}

#[test]
fn numbers_that_can_be_read() {
    assert!(numbers_fit("我有3个苹果"));
    assert!(numbers_fit("9999999999999999"));
    assert!(!numbers_fit("10000000000000000"));
    assert!(numbers_fit("99999999999999999999"));
    assert!(!numbers_fit("a 12345678901234567 b"));
    assert!(numbers_fit(""));
}

#[test]
fn cut2_pieces_have_fifty_characters_when_there_are_several() {
    let a = format!("{}，", "甲".repeat(55));
    let b = format!("{}。", "乙".repeat(52));
    let text = format!("{}{}短。", a, b);
    let res = cut2(&text);
    assert_eq!(res, vec![a.clone(), format!("{}短。", b)]);
    assert!(res.iter().all(|p| p.chars().count() >= 50));
}

#[test]
fn cut5_pieces_hold_only_decimal_points_inside() {
    assert_eq!(cut5("圓周率是3.14。"), vec!["圓周率是3.14。".to_string()]);
    assert_eq!(cut5("a.b"), vec!["a.".to_string(), "b".to_string()]);
}

#[test]
fn method_names_ignore_ascii_case_and_default_to_cut5() {
    let text = "甲，乙。丙";
    assert_eq!(segment_text(text, "CUT5"), segment_text(text, "cut5"));
    assert_eq!(segment_text(text, "Cut3"), segment_text(text, "cut3"));
    assert_eq!(segment_text(text, ""), segment_text(text, "cut5"));
    assert_eq!(segment_text(text, "cut9"), segment_text(text, "cut5"));
    assert!(!segment_text("a", "cut0").is_empty());
    assert!(segment_text(" ，。 ", "cut2").is_empty());
}

#[test]
fn split_chunks_fit_or_are_single_clauses() {
    let long_clause = format!("{}，", "长".repeat(20));
    let text = format!("短，{}短。", long_clause);
    let parts = split_big_text(&text, 10);
    assert_eq!(parts, vec!["短，".to_string(), long_clause.clone(), "短。".to_string()]);
}

#[test]
fn mapping_punctuation_twice_changes_nothing() {
    for text in ["！！？。。", "a...b", "嗯——好～～", "$$$//"] {
        let once = replace_consecutive_punctuation(text);
        assert_eq!(replace_consecutive_punctuation(&once), once);
    }
}

#[test]
fn english_lookup_ignores_ascii_case() {
    let dict = CmuDict::from_entries(vec![(
        "HELLO".to_string(),
        vec!["HH".to_string(), "AH0".to_string(), "L".to_string(), "OW1".to_string()],
    )]);
    assert_eq!(get_english_phonemes(&dict, "HeLLo"), get_english_phonemes(&dict, "hello"));
    assert_eq!(get_english_phonemes(&dict, "Ab"), get_english_phonemes(&dict, "aB"));
}

#[test]
fn symbol_ids_are_line_numbers() {
    let table = SymbolTable::from_text("_\nAA\r\n a \n\nAA\nb\n");
    let phones: Vec<String> = ["AA", "a", "b", "_", "zz", ""].iter().map(|s| s.to_string()).collect();
    assert_eq!(cleaned_text_to_sequence(&table, &phones), vec![4, 2, 5, 0, 0, 3]);
    assert_eq!(cleaned_text_to_sequence(&SymbolTable::from_text(""), &phones), vec![0; 6]);
}

#[test]
fn normalized_text_has_no_ascii_digits() {
    let r = normalize_chinese_text(" 第3章，共12页。。 ");
    assert_eq!(r, "第三章,共十二页.");
    assert!(!r.chars().any(|c| c.is_ascii_digit()));
}

#[test]
fn pinyin_tables_read_from_text() {
    let parsed = PinyinTables::parse(
        "你 ni3\n# 注 comment\n好\thao3\n坏\nab cd\n",
        "ni\tn i\nhao h ao\n# x y z\nbad line\n",
    );
    let listed = PinyinTables::from_entries(
        vec![('你', "ni3".to_string()), ('好', "hao3".to_string())],
        vec![
            ("ni".to_string(), "n".to_string(), "i".to_string()),
            ("hao".to_string(), "h".to_string(), "ao".to_string()),
        ],
    );
    let dict = CmuDict::empty();
    assert_eq!(
        text_to_phonemes_with(&parsed, &dict, "你好", "zh", "v2"),
        text_to_phonemes_with(&listed, &dict, "你好", "zh", "v2")
    );
    assert_eq!(
        pinyin_to_opencpop(&parsed, "hao3"),
        Some(("h".to_string(), "ao3".to_string()))
    );
}

#[test]
fn cut5_pieces_are_trimmed() {
    for piece in cut5(" 你好 ,  世界 !  再见 ") {
        assert_eq!(piece.trim(), piece);
        assert!(!piece.is_empty());
    }
}

#[test]
fn english_words_get_phones_in_any_case() {
    let dict = CmuDict::from_entries(vec![("OK".to_string(), vec!["OW2".to_string(), "K".to_string(), "EY1".to_string()])]);
    assert_eq!(get_english_phonemes(&dict, "ok"), get_english_phonemes(&dict, "OK"));
    assert_eq!(get_english_phonemes(&dict, "Qx"), vec!["K", "W", "K", "S"]);
    assert!(!get_english_phonemes(&dict, "...").is_empty());
}
