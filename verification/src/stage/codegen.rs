//! The text pieces of code generation of the current front end: the data
//! section that holds string literals, and the names of labels.
use crate::stage::ir::{Literals, Node};
use crate::text::{
    bytes, decimal, lemma_ascii_valid, lemma_decimal_ascii, lemma_str_valid, push_bytes, push_decimal,
    push_str, string_bytes, string_from_bytes,
};
use crate::tree::{LiteralOf, LiteralV};
use vstd::prelude::*;
use vstd::utf8::{valid_utf8, valid_utf8_concat};

verus! {

/// The label of literal number `i`.
pub open spec fn literal_label_text(i: nat) -> Seq<u8> {
    bytes("d") + decimal(i)
}

/// The line of the data section for literal number `i`: a string is
/// emitted under its label, an integer needs no line.
pub open spec fn data_line(i: nat, l: LiteralV) -> Seq<u8> {
    match l {
        LiteralOf::Str(s) => bytes("\t") + literal_label_text(i) + bytes(": .asciz \"") + s + bytes("\"\n"),
        LiteralOf::Integer(_) => seq![],
    }
}

/// The lines of the data section for the literals.
pub open spec fn data_lines(s: Seq<LiteralV>) -> Seq<u8>
    decreases s.len(),
{
    if s.len() == 0 {
        seq![]
    } else {
        data_lines(s.drop_last()) + data_line((s.len() - 1) as nat, s.last())
    }
}

/// Whether every string literal is valid UTF-8.
pub open spec fn strings_valid(s: Seq<LiteralV>) -> bool {
    forall|i: int| 0 <= i < s.len() ==> (#[trigger] s[i] matches LiteralOf::Str(t) ==> valid_utf8(t))
}

proof fn lemma_data_lines_valid(s: Seq<LiteralV>)
    requires
        strings_valid(s),
    ensures
        valid_utf8(data_lines(s)),
    decreases s.len(),
{
    if s.len() > 0 {
        lemma_data_lines_valid(s.drop_last());
        let i = (s.len() - 1) as nat;
        assert(s.drop_last() =~= s.subrange(0, s.len() - 1));
        assert(s[s.len() - 1] == s.last());
        match s.last() {
            LiteralOf::Str(t) => {
                lemma_str_valid("\t");
                lemma_str_valid("d");
                lemma_str_valid(": .asciz \"");
                lemma_str_valid("\"\n");
                lemma_decimal_ascii(i);
                lemma_ascii_valid(decimal(i));
                valid_utf8_concat(bytes("d"), decimal(i));
                valid_utf8_concat(bytes("\t"), literal_label_text(i));
                valid_utf8_concat(bytes("\t") + literal_label_text(i), bytes(": .asciz \""));
                valid_utf8_concat(bytes("\t") + literal_label_text(i) + bytes(": .asciz \""), t);
                valid_utf8_concat(
                    bytes("\t") + literal_label_text(i) + bytes(": .asciz \"") + t,
                    bytes("\"\n"),
                );
                valid_utf8_concat(data_lines(s.drop_last()), data_line(i, s.last()));
            },
            LiteralOf::Integer(_) => {
                assert(data_lines(s) =~= data_lines(s.drop_last()));
            },
        }
    }
}

/// The data section of a program: a `.data` line, then each string literal
/// under the label of its number.
pub fn data_section(literals: &Literals) -> (r: String)
    requires
        strings_valid(literals.view_storage()),
    ensures
        string_bytes(r) == bytes(".data\n") + data_lines(literals.view_storage()),
{
    let ghost s = literals.view_storage();
    let mut t: Vec<u8> = Vec::new();
    push_str(&mut t, ".data\n");
    let mut i: usize = 0;
    while i < literals.len()
        invariant
            s == literals.view_storage(),
            0 <= i <= s.len(),
            t@ == bytes(".data\n") + data_lines(s.subrange(0, i as int)),
        decreases s.len() - i,
    {
        let ghost before = t@;
        assert(s.subrange(0, i + 1).drop_last() =~= s.subrange(0, i as int));
        assert(s.subrange(0, i + 1).last() == s[i as int]);
        match literals.get(i) {
            LiteralOf::Str(text) => {
                push_str(&mut t, "\t");
                push_str(&mut t, "d");
                push_decimal(&mut t, i as u64);
                push_str(&mut t, ": .asciz \"");
                push_bytes(&mut t, text);
                push_str(&mut t, "\"\n");
                assert(t@ =~= before + data_line(i as nat, s[i as int]));
            },
            LiteralOf::Integer(_) => {
                assert(t@ =~= before + data_line(i as nat, s[i as int]));
            },
        }
        i += 1;
    }
    proof {
        assert(s.subrange(0, s.len() as int) =~= s);
        lemma_data_lines_valid(s);
        lemma_str_valid(".data\n");
        valid_utf8_concat(bytes(".data\n"), data_lines(s));
    }
    string_from_bytes(t)
}

/// The label of literal number `i`.
pub fn literal_label(i: usize) -> (r: String)
    ensures
        string_bytes(r) == literal_label_text(i as nat),
{
    let mut t: Vec<u8> = Vec::new();
    push_str(&mut t, "d");
    push_decimal(&mut t, i as u64);
    proof {
        lemma_str_valid("d");
        lemma_decimal_ascii(i as nat);
        lemma_ascii_valid(decimal(i as nat));
        valid_utf8_concat(bytes("d"), decimal(i as nat));
        assert(t@ =~= literal_label_text(i as nat));
    }
    string_from_bytes(t)
}

/// The assembly name of a label: an underscore, its name, and suffixes for
/// a body, an epilogue, and a label made unique by its node.
pub open spec fn label_text(name: &str, body: bool, epilogue: bool, unique: Option<&str>) -> Seq<u8> {
    bytes("_") + bytes(name) + (if body {
        bytes("_body")
    } else {
        seq![]
    }) + (if epilogue {
        bytes("_epilogue")
    } else {
        seq![]
    }) + match unique {
        Some(u) => bytes("_") + bytes(u),
        None => seq![],
    }
}

/// The assembly name of a label; `unique` is the text of the label's node
/// where the label must be unique.
pub fn asm_label(name: &str, body: bool, epilogue: bool, unique: Option<&str>) -> (r: String)
    ensures
        string_bytes(r) == label_text(name, body, epilogue, unique),
{
    let mut t: Vec<u8> = Vec::new();
    push_str(&mut t, "_");
    push_str(&mut t, name);
    let ghost t1 = t@;
    if body {
        push_str(&mut t, "_body");
    }
    let ghost t2 = t@;
    if epilogue {
        push_str(&mut t, "_epilogue");
    }
    let ghost t3 = t@;
    match unique {
        Some(u) => {
            push_str(&mut t, "_");
            push_str(&mut t, u);
        },
        None => {},
    }
    proof {
        let b = if body {
            bytes("_body")
        } else {
            seq![]
        };
        let e = if epilogue {
            bytes("_epilogue")
        } else {
            seq![]
        };
        let u = match unique {
            Some(u) => bytes("_") + bytes(u),
            None => seq![],
        };
        assert(t2 =~= t1 + b);
        assert(t3 =~= t2 + e);
        assert(t@ =~= t3 + u);
        assert(t@ =~= label_text(name, body, epilogue, unique));
        lemma_str_valid("_");
        lemma_str_valid(name);
        lemma_str_valid("_body");
        lemma_str_valid("_epilogue");
        assert(valid_utf8(seq![])) by {
            assert(Seq::<u8>::empty().len() == 0);
        }
        valid_utf8_concat(bytes("_"), bytes(name));
        valid_utf8_concat(t1, b);
        valid_utf8_concat(t2, e);
        match unique {
            Some(x) => {
                lemma_str_valid(x);
                valid_utf8_concat(bytes("_"), bytes(x));
            },
            None => {},
        }
        valid_utf8_concat(t3, u);
    }
    string_from_bytes(t)
}

/// A label to name in assembly: its node, name, whether it marks a body or
/// an epilogue, and the text of its node where it must be unique.
pub struct LabelSite {
    pub node: Node,
    pub name: &'static str,
    pub body: bool,
    pub epilogue: bool,
    pub unique: Option<String>,
}

/// The assembly name of a label site.
pub open spec fn site_text(l: LabelSite) -> Seq<u8> {
    bytes("_") + bytes(l.name) + (if l.body {
        bytes("_body")
    } else {
        seq![]
    }) + (if l.epilogue {
        bytes("_epilogue")
    } else {
        seq![]
    }) + match l.unique {
        Some(u) => bytes("_") + string_bytes(u),
        None => seq![],
    }
}

/// Names every label in assembly, in order.
pub fn resolve_labels(labels: &Vec<LabelSite>) -> (r: Vec<(Node, String)>)
    ensures
        r@.len() == labels@.len(),
        forall|i: int|
            0 <= i < labels@.len() ==> (#[trigger] r@[i]).0 == labels@[i].node && string_bytes(r@[i].1)
                == site_text(labels@[i]),
{
    let mut out: Vec<(Node, String)> = Vec::new();
    let mut i: usize = 0;
    while i < labels.len()
        invariant
            0 <= i <= labels@.len(),
            out@.len() == i,
            forall|j: int|
                0 <= j < i ==> (#[trigger] out@[j]).0 == labels@[j].node && string_bytes(out@[j].1)
                    == site_text(labels@[j]),
        decreases labels@.len() - i,
    {
        let l = &labels[i];
        let text = match &l.unique {
            Some(u) => asm_label(l.name, l.body, l.epilogue, Some(u.as_str())),
            None => asm_label(l.name, l.body, l.epilogue, None),
        };
        out.push((l.node, text));
        i = i + 1;
    }
    out
}

} // verus!
