//! Scalar values, texts, tokens and contracts on concrete values.
use vericl::bits::{bit_bin, bit_count, bit_not, reverse_bits, to_signed, to_unsigned, BitCount, BitOp};
use vericl::contract::{parse_contract, pretty, GenEntry, LengthFact};
use vericl::convert::{cast, coerce, reinterpret};
use vericl::fault::{kind_name, variable_name, Refusal};
use vericl::float::{abs32, abs64, neg32, neg64, no_floats, FloatOp};
use vericl::fuzz::{canonical_oob_witness, compare, gen_kernel, replay_refutation};
use vericl::interp::{Oob, Outcome};
use vericl::grammar::{
    eval_kernel, eval_thread, gen_expr, gen_shape, Expr, RefArray, RefInputs, RefOutcome, Rng, Shape,
};
use vericl::ir::{register_of, ElemType, IntKind, Type, UIntKind, Variable, VariableKind};
use vericl::lowering::Verdict;
use vericl::model::{cex_get, parse_cex, parse_int, trim};
use vericl::parser::{int_literal, read_decimal};
use vericl::semantics::ThreadCtx;
use vericl::template::{fill2, fill3, join};
use vericl::text::{cat3, decimal, holds, list, paste, quote, replace, signed_decimal};
use vericl::tokens::{print, rename, transform_body, Delimiter, Naming, Token};
use vericl::twin::{wrapping_body, BinOp, Tree};
use vericl::value::{
    abs, clamp, equal, int_bin, int_div_mod, is_inf, is_nan, mul_hi, neg, relation, wrap, IntBin,
    Relation, Val,
};

const U8: ElemType = ElemType::UInt(UIntKind::U8);
const U32: ElemType = ElemType::UInt(UIntKind::U32);
const I32: ElemType = ElemType::Int(IntKind::I32);
const I8: ElemType = ElemType::Int(IntKind::I8);

// ---- values --------------------------------------------------------------------------

#[test]
fn integers_wrap_to_their_width() {
    assert_eq!(wrap(256, U8), Val::U8(0));
    assert_eq!(wrap(-1, U8), Val::U8(255));
    assert_eq!(wrap(128, I8), Val::I8(-128));
    assert_eq!(wrap(0x1_0000_0001, U32), Val::U32(1));
    let sum = int_bin(Val::U32(u32::MAX), Val::U32(2), IntBin::Add);
    assert_eq!(sum.unwrap(), Val::U32(1));
    let product = int_bin(Val::I32(i32::MIN), Val::I32(-1), IntBin::Mul);
    assert_eq!(product.unwrap(), Val::I32(i32::MIN));
    assert_eq!(int_bin(Val::U8(3), Val::U8(9), IntBin::Min).unwrap(), Val::U8(3));
    assert_eq!(int_bin(Val::I8(-3), Val::I8(2), IntBin::Max).unwrap(), Val::I8(2));
    let mixed = int_bin(Val::U8(3), Val::F32(9), IntBin::Add);
    assert!(matches!(mixed, Err(Refusal::IntegerOperands)));
}

#[test]
fn division_truncates_toward_zero() {
    assert_eq!(int_div_mod(Val::I32(-7), Val::I32(2), true).unwrap(), Val::I32(-3));
    assert_eq!(int_div_mod(Val::I32(-7), Val::I32(2), false).unwrap(), Val::I32(-1));
    assert_eq!(int_div_mod(Val::U32(7), Val::U32(2), true).unwrap(), Val::U32(3));
    assert_eq!(int_div_mod(Val::U32(7), Val::U32(2), false).unwrap(), Val::U32(1));
}

#[test]
fn products_have_a_high_word() {
    let r = mul_hi(Val::U32(0x8000_0000), Val::U32(6)).unwrap();
    assert_eq!(r, Val::U32(3));
    assert!(matches!(mul_hi(Val::Bool(true), Val::U32(6)), Err(Refusal::MulHiOperands)));
}

#[test]
fn signs_change() {
    assert_eq!(neg(Val::I32(5)), Val::I32(-5));
    assert_eq!(neg(Val::I32(i32::MIN)), Val::I32(i32::MIN));
    assert_eq!(neg(Val::F32(1.5f32.to_bits())), Val::F32((-1.5f32).to_bits()));
    assert_eq!(abs(Val::I32(-5)), Val::I32(5));
    assert_eq!(abs(Val::F64((-2.0f64).to_bits())), Val::F64(2.0f64.to_bits()));
    assert_eq!(neg32(neg32(7)), 7);
    assert_eq!(neg64(neg64(7)), 7);
    assert_eq!(abs32(neg32(7)), 7);
    assert_eq!(abs64(neg64(7)), 7);
    assert!(is_nan(Val::F32(f32::NAN.to_bits())));
    assert!(!is_nan(Val::F32(f32::INFINITY.to_bits())));
    assert!(is_inf(Val::F64(f64::NEG_INFINITY.to_bits())));
    assert!(!is_inf(Val::U32(1)));
}

#[test]
fn clamps_keep_to_their_bounds() {
    let c = |v: i32, lo: i32, hi: i32| clamp(Val::I32(v), Val::I32(lo), Val::I32(hi), I32, &no_floats);
    assert_eq!(c(9, -1, 4).unwrap(), Val::I32(4));
    assert_eq!(c(-9, -1, 4).unwrap(), Val::I32(-1));
    assert_eq!(c(3, -1, 4).unwrap(), Val::I32(3));
    assert!(matches!(c(3, 4, -1), Err(Refusal::ClampBounds)));
}

#[test]
fn integers_are_ordered() {
    let less = relation(Val::U32(3), Val::U32(4), Relation::Lower, &no_floats);
    assert!(less.unwrap());
    let signed = relation(Val::I32(-3), Val::I32(2), Relation::GreaterEqual, &no_floats);
    assert!(!signed.unwrap());
    assert!(equal(Val::U32(3), Val::U32(3), &no_floats));
    assert!(!equal(Val::U32(3), Val::U32(4), &no_floats));
    let kinds = relation(Val::F32(0), Val::U32(4), Relation::Lower, &no_floats);
    assert!(matches!(kinds, Err(Refusal::ComparisonKinds)));
}

#[test]
fn bits_are_combined() {
    let two = |a: u32, b: u32, op: BitOp| bit_bin(Val::U32(a), Val::U32(b), op).unwrap();
    assert_eq!(two(0b1100, 0b1010, BitOp::And), Val::U32(0b1000));
    assert_eq!(two(0b1100, 0b1010, BitOp::Or), Val::U32(0b1110));
    assert_eq!(two(0b1100, 0b1010, BitOp::Xor), Val::U32(0b0110));
    assert_eq!(two(1, 4, BitOp::Shl), Val::U32(16));
    assert_eq!(two(0x8000_0000, 31, BitOp::Shr), Val::U32(1));
    assert_eq!(bit_not(Val::U32(0)).unwrap(), Val::U32(u32::MAX));
    assert_eq!(bit_not(bit_not(Val::I32(-9)).unwrap()).unwrap(), Val::I32(-9));
    assert_eq!(reverse_bits(Val::U32(1)).unwrap(), Val::U32(0x8000_0000));
    assert_eq!(bit_count(Val::U32(0xF0), BitCount::Ones).unwrap(), Val::U32(4));
    assert_eq!(bit_count(Val::U32(0xF0), BitCount::LeadingZeros).unwrap(), Val::U32(24));
    assert_eq!(bit_count(Val::U32(0xF0), BitCount::TrailingZeros).unwrap(), Val::U32(4));
    assert_eq!(bit_count(Val::U64(1), BitCount::LeadingZeros).unwrap(), Val::U32(63));
    assert_eq!(bit_count(Val::U64(8), BitCount::TrailingZeros).unwrap(), Val::U32(3));
    assert_eq!(bit_count(Val::U64(7), BitCount::Ones).unwrap(), Val::U32(3));
    assert!(matches!(bit_not(Val::F32(0)), Err(Refusal::BitNot)));
    assert_eq!(to_signed(to_unsigned(-5)), -5);
    assert_eq!(to_unsigned(to_signed(0xFFFF_FFF0)), 0xFFFF_FFF0);
}

#[test]
fn bits_survive_reinterpretation() {
    let there = reinterpret(Val::I32(-1), U32).unwrap();
    assert_eq!(there, Val::U32(u32::MAX));
    assert_eq!(reinterpret(there, I32).unwrap(), Val::I32(-1));
    assert!(matches!(reinterpret(Val::Bool(true), U32), Err(Refusal::Reinterpret { .. })));
    assert_eq!(cast(Val::I32(-1), U8, &no_floats), Val::U8(255));
    assert_eq!(cast(Val::U32(300), U8, &no_floats), Val::U8(44));
}

/// Converts floats as the host does.
fn host(op: FloatOp, a: u64, _b: u64, _c: u64) -> u64 {
    match op {
        FloatOp::Widen => (f32::from_bits(a as u32) as f64).to_bits(),
        FloatOp::ToIntLow => f64::from_bits(a) as i128 as u128 as u64,
        FloatOp::ToIntHigh => ((f64::from_bits(a) as i128 as u128) >> 64) as u64,
        _ => 0,
    }
}

#[test]
fn float_casts_saturate() {
    let f = |x: f32| Val::F32(x.to_bits());
    assert_eq!(cast(f(300.0), U8, &host), Val::U8(255));
    assert_eq!(cast(f(-1.0), U32, &host), Val::U32(0));
    assert_eq!(cast(f(1e20), I32, &host), Val::I32(i32::MAX));
    assert_eq!(cast(f(-1e20), I8, &host), Val::I8(-128));
    assert_eq!(cast(f(2.9), U8, &host), Val::U8(2));
    assert_eq!(cast(f(f32::NAN), U8, &host), Val::U8(0));
}

#[test]
fn floats_stored_to_integers_wrap() {
    let f = |x: f32| Val::F32(x.to_bits());
    assert_eq!(coerce(f(300.0), U8, &host), Val::U8(44));
    assert_eq!(coerce(f(-1.0), U8, &host), Val::U8(255));
    assert_eq!(coerce(f(2.9), U8, &host), Val::U8(2));
    assert_eq!(coerce(Val::U32(300), U8, &host), Val::U8(44));
    assert_eq!(coerce(f(1.0), ElemType::Bool, &host), Val::Bool(false));
}

#[test]
fn variables_are_named_with_their_numbers() {
    let ty = Type::Scalar(U32);
    let named = |kind| variable_name(Variable { kind, ty });
    assert_eq!(named(VariableKind::LocalMut { id: 3 }), "local(3)");
    assert_eq!(named(VariableKind::LocalConst { id: 4 }), "binding(4)");
    assert_eq!(named(VariableKind::GlobalInputArray(0)), "input(0)");
    assert_eq!(named(VariableKind::GlobalScalar(2)), "scalar<u32>(2)");
    assert_eq!(kind_name(VariableKind::LocalMut { id: 3 }), "LocalMut { id: 3 }");
}

#[test]
fn outcomes_of_another_kind_are_printed_in_full() {
    let k = gen_kernel(1);
    let array = "x".to_string();
    let oob = Outcome::OutOfBounds(Oob { array, index: 7, len: 4, write: false, thread: 2 });
    assert_eq!(
        compare(&k, &oob, &RefOutcome::Completed(vec![1, 2])),
        Err("outcome kind mismatch: interp OutOfBounds(Oob { array: \"x\", index: 7, len: 4, \
             write: false, thread: 2 }) vs reference Completed([1, 2])"
            .to_string())
    );
    let div = Outcome::DivByZero { detail: "a".to_string(), thread: 1 };
    let r = RefOutcome::Oob { array: RefArray::Idxs, index: 3, thread: 0, write: true };
    assert_eq!(
        compare(&k, &div, &r),
        Err("outcome kind mismatch: interp DivByZero { detail: \"a\", thread: 1 } vs reference \
             Oob { array: \"idxs\", index: 3, thread: 0, write: true }"
            .to_string())
    );
}

#[test]
fn a_block_of_no_threads_counts_as_one() {
    let t = ThreadCtx::new(5, 0, 7);
    assert_eq!((t.abs_pos, t.unit_pos, t.cube_pos, t.cube_dim, t.cube_count), (5, 0, 5, 0, 7));
    let t = ThreadCtx::new(5, 4, 7);
    assert_eq!((t.unit_pos, t.cube_pos, t.cube_dim, t.cube_count), (1, 1, 4, 2));
}

#[test]
fn drawn_expressions_keep_to_their_depth() {
    let mut rng = Rng::new(3);
    assert!(!matches!(gen_expr(&mut rng, 0, false), Expr::Bin(..) | Expr::DivMod { .. }));
    let e = format!("{:?}", gen_expr(&mut rng, 6, false));
    assert!(!e.contains("LoopVar"), "{e}");
}

#[test]
fn a_fault_leaves_the_writes_before_it() {
    let shape = Shape::UnsafeOffByOne { value: Expr::Const(7) };
    let inputs = || RefInputs { x: vec![], idxs: vec![], y: vec![0; 4], s0: 1, s1: 1, num_threads: 5 };
    let mut i = inputs();
    assert!(eval_thread(&shape, 3, &mut i).is_none());
    assert_eq!(i.y, [0, 0, 0, 7]);
    let mut i = inputs();
    assert!(matches!(
        eval_thread(&shape, 4, &mut i),
        Some(RefOutcome::Oob { array: RefArray::Y, index: 4, thread: 4, write: true })
    ));
    assert_eq!(i.y, [0; 4]);
    let mut i = inputs();
    assert!(eval_thread(&shape, 5, &mut i).is_none());
    assert_eq!(i.y, [0; 4]);
    let mut i = inputs();
    assert!(matches!(eval_kernel(&shape, &mut i), RefOutcome::Oob { index: 4, thread: 4, .. }));
    assert_eq!(i.y, [7; 4]);
    assert_eq!((i.s0, i.s1, i.num_threads), (1, 1, 5));
    let shape = Shape::UnsafeForwardRead { k: 1 };
    let mut i = RefInputs { x: vec![0; 4], num_threads: 4, ..inputs() };
    assert!(matches!(
        eval_kernel(&shape, &mut i),
        RefOutcome::Oob { array: RefArray::X, index: 4, thread: 3, write: false }
    ));
}

#[test]
fn threads_past_the_end_do_nothing() {
    let shape = Shape::SafeDirect { value: Expr::Pos };
    for n in [4, 5, 900] {
        let mut i = RefInputs { x: vec![], idxs: vec![], y: vec![9; 4], s0: 0, s1: 0, num_threads: n };
        assert!(matches!(eval_kernel(&shape, &mut i), RefOutcome::Completed(y) if y == [0, 1, 2, 3]));
    }
}

#[test]
fn registers_do_not_meet() {
    let a = register_of(VariableKind::LocalConst { id: 1 });
    let b = register_of(VariableKind::LocalMut { id: 1 });
    let c = register_of(VariableKind::Versioned { id: 0, version: 1 });
    assert!(a.is_some() && a != b && b != c && a != c);
    assert_eq!(register_of(VariableKind::GlobalScalar(1)), None);
}

// ---- random kernels ------------------------------------------------------------------

#[test]
fn the_generator_is_a_function_of_its_seed() {
    let mut a = Rng::new(7);
    let mut b = Rng::new(7);
    for _ in 0..20 {
        assert_eq!(a.next(), b.next());
    }
    assert!(a.below(10) < 10);
    assert_eq!(format!("{:?}", gen_shape(12)), format!("{:?}", gen_shape(12)));
}

#[test]
fn unsafe_shapes_have_a_witness() {
    let off = Shape::UnsafeOffByOne { value: Expr::Pos };
    let forward = Shape::UnsafeForwardRead { k: 3 };
    for shape in [off, forward] {
        let mut inputs = canonical_oob_witness(&shape).expect("a witness");
        assert!(matches!(eval_kernel(&shape, &mut inputs), RefOutcome::Oob { .. }));
    }
    assert!(canonical_oob_witness(&Shape::SafeGather).is_none());
}

#[test]
fn refutations_are_replayed() {
    let mut seen = 0;
    for seed in 0..80 {
        let k = gen_kernel(seed);
        if matches!(k.expected, Verdict::Refuted) {
            seen += 1;
            assert!(replay_refutation(&k, "").is_ok());
        }
    }
    assert!(seen > 0);
}

// ---- texts ---------------------------------------------------------------------------

#[test]
fn counterexamples_are_read_back() {
    let found = parse_cex("abs_pos = 4, len_y_1 = -3, len_x_2 = (- 1), junk");
    assert_eq!(found.len(), 2);
    assert_eq!(cex_get(&found, "abs_pos"), Some(4));
    assert_eq!(cex_get(&found, "len_y"), Some(-3));
    assert_eq!(cex_get(&found, "len_x"), None);
    assert_eq!(cex_get(&found, "len"), Some(-3));
    assert_eq!(cex_get(&found, "abs"), Some(4));
    assert_eq!(parse_int("12"), Some(12));
    assert_eq!(parse_int("+12"), Some(12));
    assert_eq!(parse_int("-12"), Some(-12));
    assert_eq!(parse_int("twelve"), None);
    assert_eq!(trim("  a b "), "a b");
}

#[test]
fn numerals_are_written_in_decimal() {
    assert_eq!(decimal(0), "0");
    assert_eq!(decimal(65536), "65536");
    assert_eq!(signed_decimal(-42), "-42");
    assert_ne!(decimal(10), decimal(100));
}

#[test]
fn texts_are_put_together() {
    assert_eq!(cat3("a", "", "b"), "ab");
    assert_eq!(replace("a . b . c", " . ", "."), "a.b.c");
    assert!(holds("sync_cube ()", "sync_cube"));
    assert!(!holds("sync", "sync_cube"));
    assert_eq!(quote("a\"b\\"), "\"a\\\"b\\\\\"");
    assert_eq!(fill2("#a-#b-#a", "x", "y"), "x-y-x");
    assert_eq!(fill3("#c#b#a", "x", "y", "z"), "zyx");
    assert_eq!(join(&vec!["a".to_string(), "b".to_string()], "::"), "a::b");
    assert_eq!((paste("r#type"), paste("rtype")), ("type".to_string(), "rtype".to_string()));
    assert_eq!((list("a,b,"), list("a"), list("")), ("a,b".into(), "a".into(), String::new()));
}

// ---- tokens --------------------------------------------------------------------------

fn ident(text: &str) -> Token {
    Token::Ident { at: 0, text: text.to_string() }
}

fn punct(text: &str) -> Token {
    Token::Punct { text: text.to_string(), joint: false }
}

fn group(tokens: Vec<Token>) -> Token {
    Token::Group { delimiter: Delimiter::Parenthesis, tokens }
}

fn lit(text: &str) -> Token {
    Token::Literal(text.to_string())
}

#[test]
fn the_thread_position_is_renamed() {
    let once = rename("ABSOLUTE_POS", Naming::Sequential);
    assert_ne!(once, "ABSOLUTE_POS");
    assert_eq!(rename(once, Naming::Sequential), once);
    assert_eq!(rename("x", Naming::Sequential), "x");
    assert_eq!(rename("ABSOLUTE_POS", Naming::AsWritten), "ABSOLUTE_POS");
    let body = vec![ident("x"), punct("="), ident("ABSOLUTE_POS")];
    let text = transform_body(&body).expect("in the subset");
    assert!(!text.contains("ABSOLUTE_POS"), "{text}");
    assert!(text.contains(once), "{text}");
    assert!(print(&body, Naming::AsWritten).contains("ABSOLUTE_POS"));
}

#[test]
fn banned_names_are_reported_where_they_stand() {
    let body = vec![
        ident("x"),
        group(vec![Token::Ident { at: 5, text: "sync_cube".to_string() }]),
        Token::Ident { at: 9, text: "AtomicAdd".to_string() },
    ];
    let errors = transform_body(&body).expect_err("outside the subset");
    assert_eq!(errors.len(), 2);
    assert_eq!(errors[0].at, 5);
    assert!(errors[0].text.contains("sync_cube"));
    assert_eq!(errors[1].at, 9);
}

#[test]
fn only_arithmetic_wraps() {
    let leaf = |n: &str| Box::new(Tree::Token(ident(n)));
    let sum = Tree::Binary { left: leaf("a"), op: BinOp::Plus, mark: "+".to_string(), right: leaf("b") };
    let text = wrapping_body(&sum);
    assert!(text.contains("wrapping_add"), "{text}");
    let less = Tree::Binary { left: leaf("a"), op: BinOp::Other, mark: "<".to_string(), right: leaf("b") };
    let text = wrapping_body(&less);
    assert!(!text.contains("wrapping"), "{text}");
    assert!(text.contains("<"), "{text}");
}

// ---- contracts -----------------------------------------------------------------------

fn no_contract(attr: &str) -> String {
    match parse_contract(attr) {
        Ok(c) => panic!("expected a rejection, got {c:?}"),
        Err(d) => d.text,
    }
}

#[test]
fn contracts_are_read() {
    let c = parse_contract("assumes(x.len() == y.len(), n > 0), gen(k in 2..=9), wrapping")
        .expect("a contract");
    assert_eq!(c.assumes.len(), 2);
    assert!(matches!(&c.assumes[0].fact, Some(LengthFact::Same { a, b }) if a == "x" && b == "y"));
    assert!(c.assumes[1].fact.is_none());
    assert_eq!(c.compare_text, "exact");
    assert!(c.wrapping.is_some());
    match &c.entries[0] {
        GenEntry::Range { name, lo, hi } => {
            assert_eq!(name.text, "k");
            assert_eq!(lo.trim(), "2");
            assert_eq!(hi.trim(), "9");
        }
        other => panic!("expected a range, got {other:?}"),
    }
    assert!(parse_contract("nonsense").is_err());
}

#[test]
fn lengths_are_recognized_in_both_orders() {
    let c = parse_contract("assumes(0x_10 == x.len(), y.len() == 8usize, z.len() == 1.0)").unwrap();
    assert!(
        matches!(&c.assumes[0].fact, Some(LengthFact::Known { a, value }) if a == "x" && *value == 16)
    );
    assert!(
        matches!(&c.assumes[1].fact, Some(LengthFact::Known { a, value }) if a == "y" && *value == 8)
    );
    assert!(c.assumes[2].fact.is_none());
}

#[test]
fn comparisons_are_read() {
    assert_eq!(parse_contract("compare(max_ulp = 4)").unwrap().compare_text, "f32 max_ulp=4");
    let c = parse_contract("compare(abs = 1, rel = 2)").unwrap();
    assert_eq!(c.compare_text, "f32 |e-a| <= 1 + 2*|e|");
    assert!(no_contract("compare(about)").contains("compare(...) expects `exact`"));
    assert!(no_contract("compare(exact exact)").ends_with("`abs = X[, rel = Y]`: expected `,`"));
}

#[test]
fn a_contract_is_taken_apart_before_it_is_read() {
    assert_eq!(
        no_contract("nonsense"),
        "expected `assumes(...)`, `compare(...)`, `gen(...)`, or `wrapping`"
    );
    assert_eq!(no_contract("nonsense, wrapping wrapping"), "expected `,`");
}

#[test]
fn ranges_are_what_the_parser_takes_for_them() {
    let gen = "gen(...) expects `name in lo..=hi` range entries and/or `len(name = N)` length pins: ";
    let open = "gen(...) ranges must be inclusive with both ends given: `name in lo..=hi`";
    let e = no_contract("gen(x in 1..9)");
    assert_eq!(e, format!("{gen}{open}"));
    for entry in ["x in y = 1..=2", "x in |a| a..=2", "x in 3"] {
        assert_eq!(no_contract(&format!("gen({entry})")), format!("{gen}{open}"), "{entry}");
    }
    assert!(no_contract("gen(x in 1..=2..=3)").starts_with(gen));
    assert_eq!(
        no_contract("gen(type in 1..=2)"),
        format!("{gen}expected identifier, found keyword `type`")
    );
    assert_eq!(
        no_contract("gen(x of 1)"),
        format!("{gen}expected `x in lo..=hi` or `len(x = N)`: expected `in`")
    );
    assert_eq!(
        no_contract("gen(x)"),
        format!(
            "{gen}expected `x in lo..=hi` or `len(x = N)`: unexpected end of input, expected `in`"
        )
    );
    assert_eq!(no_contract("gen(len x)"), format!("{gen}expected parentheses"));
    assert_eq!(no_contract("gen(len(x 4))"), format!("{gen}expected `=`"));
    assert_eq!(
        no_contract("gen(len(= 4))"),
        format!("{gen}expected `len(name = N)`: expected identifier")
    );
    assert_eq!(
        no_contract("gen(len(x = 4, y = 5))"),
        format!("{gen}len(name = N) expects exactly one `name = N` entry")
    );
    assert_eq!(no_contract("gen(x in 1..=2 y in 3..=4)"), format!("{gen}expected `,`"));
    let c = parse_contract("gen(x in a - 1..=b + f(2, 3), len(x = n * 2),)").unwrap();
    assert_eq!(c.entries.len(), 2);
    match (&c.entries[0], &c.entries[1]) {
        (GenEntry::Range { lo, hi, .. }, GenEntry::Len { name, value }) => {
            assert_eq!(lo.trim(), "a - 1");
            assert_eq!(hi.trim(), "b + f (2 , 3)");
            assert_eq!(name.text, "x");
            assert_eq!(value.trim(), "n * 2");
        }
        other => panic!("expected a range and a length, got {other:?}"),
    }
}

#[test]
fn literals_are_read_in_every_base() {
    assert_eq!(int_literal("256"), Some(256));
    assert_eq!(int_literal("1_000usize"), Some(1000));
    assert_eq!(int_literal("0x1F"), Some(31));
    assert_eq!(int_literal("0b101"), Some(5));
    assert_eq!(int_literal("0x_1"), Some(1));
    assert_eq!(int_literal("7lanes"), Some(7));
    assert_eq!(int_literal("7.5"), None);
    assert_eq!(read_decimal("18446744073709551615"), Some(u64::MAX));
    assert_eq!(read_decimal("18446744073709551616"), None);
    assert_eq!(read_decimal("1_0"), None);
    assert_eq!(int_literal("\"7\""), None);
    assert_eq!(int_literal("99999999999999999999999"), None);
    assert_eq!(pretty("x . len () == y . len ()"), "x.len() == y.len()");
}
