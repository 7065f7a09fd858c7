use midlang::lower_lang::{Decl, Type};
use midlang::lowering_context::LoweringCtx;
use midlang::text::{
    append_decimal, append_escaped, append_numeral, append_signed_decimal, digit_str, increment,
    str_lt,
};

#[test]
fn fresh_names_count_up_whatever_the_tag() {
    let mut ctx = LoweringCtx::new("m");
    assert_eq!(ctx.uniq_name("cmp"), "..cmp..0");
    assert_eq!(ctx.uniq_name("arg"), "..arg..1");
    assert_eq!(ctx.uniq_name(""), "....2");
    for _ in 3..9 {
        ctx.uniq_name("x");
    }
    assert_eq!(ctx.uniq_name("ref"), "..ref..9");
    assert_eq!(ctx.uniq_name("ref"), "..ref..10");
    for _ in 11..99 {
        ctx.uniq_name("x");
    }
    assert_eq!(ctx.uniq_name("cond"), "..cond..99");
    assert_eq!(ctx.uniq_name("cond"), "..cond..100");
}

#[test]
fn a_literal_keeps_its_symbol() {
    let mut ctx = LoweringCtx::new("mod");
    assert_eq!(ctx.decls_len(), 0);
    assert_eq!(ctx.name_for_str("zebra"), "mod_str0");
    assert_eq!(ctx.name_for_str("apple"), "mod_str1");
    assert_eq!(ctx.name_for_str("zebra"), "mod_str0");
    assert_eq!(ctx.name_for_str("mango"), "mod_str2");
    assert_eq!(ctx.name_for_str("apple"), "mod_str1");
    assert_eq!(ctx.name_for_str(""), "mod_str3");
    assert_eq!(ctx.decls_len(), 4);
}

#[test]
fn data_declarations_come_in_the_order_of_the_literals() {
    let mut ctx = LoweringCtx::new("p");
    ctx.name_for_str("b");
    ctx.name_for_str("a\nb");
    ctx.name_for_str("ab");
    ctx.name_for_str("B");
    ctx.name_for_str("a");
    let data = |symbol: &str, text: &str| {
        Decl::Data(
            symbol.to_string(),
            vec![(Type::B, text.to_string()), (Type::B, "0".to_string())],
        )
    };
    assert_eq!(
        ctx.decls(),
        vec![
            data("p_str3", "\"B\""),
            data("p_str4", "\"a\""),
            data("p_str1", "\"a\\nb\""),
            data("p_str2", "\"ab\""),
            data("p_str0", "\"b\""),
        ]
    );
}

#[test]
fn an_empty_pool_has_no_declarations() {
    let ctx = LoweringCtx::new("p");
    assert_eq!(ctx.decls(), vec![]);
    assert_eq!(ctx.decls_len(), 0);
}

#[test]
fn frames_are_a_stack() {
    let mut ctx = LoweringCtx::new("m");
    ctx.push_tmp_refs();
    ctx.add_tmp_ref(("s0".to_string(), "x".to_string(), Type::W));
    ctx.push_tmp_refs();
    ctx.add_tmp_ref(("s1".to_string(), "y".to_string(), Type::L));
    ctx.add_tmp_ref(("s2".to_string(), "z".to_string(), Type::D));
    assert_eq!(
        ctx.pop_tmp_refs(),
        vec![
            ("s1".to_string(), "y".to_string(), Type::L),
            ("s2".to_string(), "z".to_string(), Type::D),
        ]
    );
    ctx.add_tmp_ref(("s3".to_string(), "w".to_string(), Type::B));
    assert_eq!(
        ctx.pop_tmp_refs(),
        vec![
            ("s0".to_string(), "x".to_string(), Type::W),
            ("s3".to_string(), "w".to_string(), Type::B),
        ]
    );
    ctx.push_tmp_refs();
    assert_eq!(ctx.pop_tmp_refs(), vec![]);
}

#[test]
fn decimal_numerals() {
    let show = |n: u64| {
        let mut s = "n=".to_string();
        append_decimal(&mut s, n);
        s
    };
    assert_eq!(show(0), "n=0");
    assert_eq!(show(7), "n=7");
    assert_eq!(show(10), "n=10");
    assert_eq!(show(1234567890), "n=1234567890");
    assert_eq!(show(u64::MAX), "n=18446744073709551615");
}

#[test]
fn signed_decimal_numerals() {
    let show = |i: i64| {
        let mut s = String::new();
        append_signed_decimal(&mut s, i);
        s
    };
    assert_eq!(show(0), "0");
    assert_eq!(show(-1), "-1");
    assert_eq!(show(42), "42");
    assert_eq!(show(i64::MAX), "9223372036854775807");
    assert_eq!(show(i64::MIN), "-9223372036854775808");
    assert_eq!(show(i32::MIN as i64), "-2147483648");
}

#[test]
fn digits() {
    assert_eq!(digit_str(0), "0");
    assert_eq!(digit_str(5), "5");
    assert_eq!(digit_str(9), "9");
}

#[test]
fn counting_in_numerals() {
    let mut ds = vec![0u8];
    increment(&mut ds);
    assert_eq!(ds, vec![1]);
    let mut ds = vec![9u8];
    increment(&mut ds);
    assert_eq!(ds, vec![1, 0]);
    let mut ds = vec![1u8, 9, 9];
    increment(&mut ds);
    assert_eq!(ds, vec![2, 0, 0]);
    let mut ds = vec![9u8, 9, 9];
    increment(&mut ds);
    assert_eq!(ds, vec![1, 0, 0, 0]);
    let mut ds = vec![4u8, 0, 8];
    increment(&mut ds);
    assert_eq!(ds, vec![4, 0, 9]);
    let mut s = "#".to_string();
    append_numeral(&mut s, &ds);
    assert_eq!(s, "#409");
}

#[test]
fn the_order_of_strings_is_that_of_their_characters() {
    let lt = |a: &str, b: &str| str_lt(&a.to_string(), &b.to_string());
    assert!(lt("", "a"));
    assert!(!lt("", ""));
    assert!(!lt("a", ""));
    assert!(lt("a", "b"));
    assert!(!lt("b", "a"));
    assert!(lt("a", "ab"));
    assert!(!lt("ab", "a"));
    assert!(lt("B", "a"));
    assert!(lt("ab", "b"));
    assert!(!lt("same", "same"));
    assert!(lt("z", "é"));
    assert!(lt("é", "日本"));
    for (a, b) in [("cond", "ok"), ("ok", "works"), ("a\nb", "ab")] {
        assert_eq!(lt(a, b), a < b);
        assert_eq!(lt(b, a), b < a);
    }
}

#[test]
fn only_line_feeds_are_escaped() {
    let escaped = |s: &str| {
        let mut out = "[".to_string();
        append_escaped(&mut out, s);
        out
    };
    assert_eq!(escaped(""), "[");
    assert_eq!(escaped("plain"), "[plain");
    assert_eq!(escaped("a\nb\n"), "[a\\nb\\n");
    assert_eq!(escaped("\n\n"), "[\\n\\n");
    assert_eq!(escaped("tab\tquote\"back\\slash"), "[tab\tquote\"back\\slash");
    assert_eq!(escaped("日本\n語"), "[日本\\n語");
}
