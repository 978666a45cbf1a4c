use slang::ir::Labels;
use slang::stage::tokenize::tokenize;

#[test]
fn live_tokens_come_in_order_without_overlap() {
    let src = "fn main() -> u64 {\n  let x: u8 = 0x1f; // note\n  return x + \"s\";\n}\n";
    let tokens = tokenize(src).unwrap();
    assert!(tokens.len() > 10);
    for t in tokens.iter() {
        assert!(t.span.start < t.span.end && t.span.end <= src.len());
    }
    for w in tokens.windows(2) {
        assert!(w[0].span.end <= w[1].span.start);
    }
}

#[test]
fn numbered_labels_do_not_repeat() {
    let mut labels = Labels { prefix: b"main".to_vec(), unique: 9 };
    let a = labels.label("if_body");
    let b = labels.label("if_body");
    let c = labels.label("while_exit");
    assert_eq!(a, b"main_if_body9".to_vec());
    assert_eq!(b, b"main_if_body10".to_vec());
    assert_eq!(c, b"main_while_exit11".to_vec());
    assert_ne!(a, b);
    assert_eq!(labels.unique, 12);
}

#[test]
fn labels_of_one_name_never_repeat_and_the_epilogue_stays() {
    // A name ending in a digit: `x1` with counters 1 and 11 would read
    // `x11` and `x111`; still two different labels.
    let mut labels = Labels { prefix: b"f".to_vec(), unique: 1 };
    let first = labels.label("x1");
    let epilogue = labels.epilogue();
    for _ in 0..9 {
        labels.label("y");
    }
    let second = labels.label("x1");
    assert_ne!(first, second);
    assert_eq!(labels.epilogue(), epilogue);
    assert_eq!(epilogue, b"f_epilogue".to_vec());
    assert_ne!(epilogue, labels.prelude());
    assert_ne!(epilogue, labels.body());
}

#[test]
fn first_lexer_tokens_start_in_order() {
    let src = "fn main() { let x = 12; \"str\" }";
    let tokens = slang::tokenize::tokenize(src).unwrap();
    for w in tokens.windows(2) {
        assert!(w[0].span.start < w[1].span.start);
    }
}
