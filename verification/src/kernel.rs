//! The module of a kernel: its contract, its twin, and the code that holds one against the
//! other.
use vstd::prelude::*;
use vstd::string::*;
use crate::conformance::{
    build_conformance_items, classified_from, classify_params, conformance, param_models, Arg, Kind,
    Mode, Param, ParamText,
};
use crate::contract::{
    assumption_models, contract_in, parse_contract, pretty, tidied, Assumption,
    AssumptionText, Contract, ContractText, FactText, LengthFact,
};
use crate::hash::{content_hash, hash_text};
use crate::operators::{check_tree, is_tree_of};
use crate::reading::{is_kernel_of, no_kernel, read_kernel};
use crate::source::{normal_text, print_tokens};
use crate::syntax::{last_ident, last_name, said, says, Diagnostic, Said, Shape, Ty};
use crate::template::{fill, fill1, fill2, filled, lemma_next, texts};
use crate::text::{cat2, cat3, cat4, cat5, decimal, list, listed, literal, numeral, paste, pasted, quote, same};
use crate::tokens::{
    is_banned, law_accepted_names_are_in_the_subset, occurs, print, tokens_say, tokens_text,
    transform_body, Naming, Token,
};
use crate::twin::{wrapping_body, wrapping_text, Tree};

verus! {

// ---- messages -----------------------------------------------------------------------------

pub const GENERIC_KERNEL: &'static str = "generic kernels are outside the vericl v0 subset";

pub const RETURNS_VALUE: &'static str = "kernels must not return a value";

pub const WRAPPING_FLOATS: &'static str = "`wrapping` is outside the vericl v0 subset for this kernel: every parameter must be an \
    integer scalar or integer Array (u32/i32/u64/i64) when `wrapping` is declared — the fold is \
    untyped and must not silently touch float math";

pub const DOC_WRAPPING: &'static str = "VeriCL-generated artifacts for kernel `#a` (compare: #b, wrapping).\n\nThe `reference` \
    function is a sequential scalar twin derived from the same\nsource tokens as the CubeCL \
    kernel; it shares no CubeCL machinery. Its integer\n`+`/`-`/`*`/`<<`/`>>` (and \
    compound-assign forms) are folded to `wrapping_*`\nequivalents, matching WGSL's \
    wrap-on-overflow semantics instead of Rust's\ndefault checked/panicking behavior — declared \
    via the `wrapping` contract clause.";

pub const DOC: &'static str = "VeriCL-generated artifacts for kernel `#a` (compare: #b).\n\nThe `reference` function is a \
    sequential scalar twin derived from the same\nsource tokens as the CubeCL kernel; it shares \
    no CubeCL machinery.";

// ---- code -----------------------------------------------------------------------------------

/// The module of a kernel.
pub const MODULE: &'static str = "#[doc = #a] #[allow(non_snake_case, unused_variables, clippy::all)] #b mod #q_vericl { use \
    super::*; #[doc = \" Identity of the exact kernel definition + contract this\"] #[doc = \" \
    module's artifacts belong to.\"] pub const SOURCE_HASH: &str = \"#d\"; pub fn contract() -> \
    ::vericl::Contract { ::vericl::Contract { kernel: \"#c\", source_hash: SOURCE_HASH, assumes: \
    &[#e], structured_assumes: &[#f], compare: #g, wrapping: #h, } } #[doc = \" The \
    `assumes(...)` clauses as an executable predicate.\"] pub fn check_assumes(#i) -> bool { \
    true #j } #[doc = \" Sequential scalar reference execution over\"] #[doc = \" `ABSOLUTE_POS \
    in 0..num_threads` — the same iteration space as\"] #[doc = \" the GPU dispatch, in \
    deterministic ascending order.\"] pub fn reference(#k num_threads: usize) { for \
    __vericl_abs_pos in 0..num_threads #l } #[doc = \" Each array parameter's name and whether \
    it's an output, in\"] #[doc = \" buffer-registration order — see `kernel_definition` \
    below.\"] pub const BUFFER_PARAMS: &[(&str, bool)] = &[#m]; #[doc = \" Build this kernel's \
    CubeCL `KernelDefinition` (the IR) with no\"] #[doc = \" client/runtime/device involved — \
    see\"] #[doc = \" docs/prototypes/ir_extraction.rs and docs/ir-research.md §1.\"] pub fn \
    kernel_definition() -> ::cubecl::prelude::KernelDefinition { let mut __vericl_builder = \
    ::cubecl::prelude::KernelBuilder::default(); \
    __vericl_builder.runtime_properties(::core::default::Default::default()); \
    ::cubecl::prelude::AddressType::U32.register(&mut __vericl_builder.scope); #n \
    #c::expand(&mut __vericl_builder.scope, #o); \
    __vericl_builder.build(::cubecl::prelude::KernelSettings::default()) } #p }";

pub const DEFINE_SCALAR: &'static str = "let #a = <#b as ::cubecl::prelude::LaunchArg>::expand( &::core::default::Default::default(), \
    &mut __vericl_builder, );";

pub const DEFINE_INPUT: &'static str = "let #a = <::cubecl::prelude::Array<#b> as ::cubecl::prelude::LaunchArg>::expand( \
    &::cubecl::prelude::ArrayCompilationArg { inplace: None }, &mut __vericl_builder, );";

pub const DEFINE_OUTPUT: &'static str = "let #a = <::cubecl::prelude::Array<#b> as ::cubecl::prelude::LaunchArg>::expand_output( \
    &::cubecl::prelude::ArrayCompilationArg { inplace: None }, &mut __vericl_builder, );";

pub const LEN_EQ: &'static str = "::vericl::StructuredAssume::LenEq { a: \"#a\", b: \"#b\" },";

pub const LEN_EQ_CONST: &'static str = "::vericl::StructuredAssume::LenEqConst { a: \"#a\", value: #bu64 },";

// ---- kernels --------------------------------------------------------------------------------

/// A kernel as written.
#[derive(Debug)]
pub struct Kernel {
    pub name: String,
    pub vis: String,
    /// The tokens of the kernel, printed.
    pub text: String,
    /// Where the generic parameters or bounds stand, if there are any.
    pub generics: Option<usize>,
    /// Where the type of the result stands, if there is one.
    pub output: Option<usize>,
    pub args: Vec<Arg>,
    /// The body, in its braces.
    pub body: Vec<Token>,
    /// The body as its parser reads it.
    pub tree: Tree,
}

/// The types whose arithmetic can wrap.
pub open spec fn wraps(ty: Ty) -> bool {
    match ty.shape {
        Shape::Path { path, .. } => path.segments@.len() > 0 && ({
            let n = last_ident(path);
            n == "u32"@ || n == "i32"@ || n == "u64"@ || n == "i64"@
        }),
        _ => false,
    }
}

pub fn is_wrapping_integer_type(ty: &Ty) -> (r: bool)
    ensures
        r == wraps(*ty),
{
    match &ty.shape {
        Shape::Path { path, .. } => {
            let n = last_name(path);
            path.segments.len() > 0 && (same(n, "u32") || same(n, "i32") || same(n, "u64") || same(
                n,
                "i64",
            ))
        },
        _ => false,
    }
}

/// The first parameter, from the `i`-th on, whose arithmetic cannot wrap.
pub open spec fn not_wrapping(params: Seq<ParamText>, i: nat) -> Option<Said>
    decreases params.len() - i,
{
    if i >= params.len() {
        None
    } else if !wraps(params[i as int].ty) {
        Some(says(params[i as int].ty.at, WRAPPING_FLOATS@))
    } else {
        not_wrapping(params, i + 1)
    }
}

fn check_wrapping(params: &Vec<Param<'_>>) -> (r: Result<(), Diagnostic>)
    ensures
        match (r, not_wrapping(param_models(params@), 0)) {
            (Ok(_), None) => true,
            (Err(d), Some(e)) => d.says() == e,
            _ => false,
        },
{
    let mut i: usize = 0;
    while i < params.len()
        invariant
            i <= params@.len(),
            not_wrapping(param_models(params@), 0) == not_wrapping(
                param_models(params@),
                i as nat,
            ),
        decreases params@.len() - i,
    {
        assert(param_models(params@)[i as int] == params@[i as int].model());
        if !is_wrapping_integer_type(params[i].ty) {
            return Err(Diagnostic { at: params[i].ty.at, text: WRAPPING_FLOATS.to_owned() });
        }
        i = i + 1;
    }
    Ok(())
}

// ---- identity ---------------------------------------------------------------------------------

/// What the identity of a kernel is made of: its tokens, its contract and the version.
pub open spec fn identity_text(text: Seq<char>, contract: Seq<char>, version: Seq<char>) -> Seq<char> {
    text + "||contract:"@ + contract + "||vericl:"@ + version
}

/// The hash of a kernel: of its tokens, its contract and the version.
pub fn source_hash(text: &str, contract: &str, version: &str) -> (r: String)
    ensures
        r@ == hash_text(vstd::utf8::encode_utf8(identity_text(text@, contract@, version@))),
{
    let all = cat5(text, "||contract:", contract, "||vericl:", version);
    content_hash(&all.as_str().as_bytes_vec())
}

// ---- parts of the module -------------------------------------------------------------------------

/// The parts of a module that have a piece for every parameter.
#[derive(Clone, Copy, Debug, PartialEq, Eq, Structural)]
pub enum Piece {
    /// A parameter of the check of the assumes.
    Predicate,
    /// A parameter of the twin.
    Reference,
    /// A buffer, and whether it is an output.
    Buffer,
    /// The definition of a parameter for the kernel's code.
    Definition,
    /// An argument for the kernel's code.
    Argument,
}

pub open spec fn piece_text(p: ParamText, piece: Piece) -> Seq<char> {
    let ty = p.ty.text@;
    match (piece, p.kind) {
        (Piece::Predicate, Kind::Scalar) => p.name + ": "@ + ty + ","@,
        (Piece::Predicate, _) => p.name + ": &["@ + ty + "],"@,
        (Piece::Reference, Kind::Scalar) => p.name + ": "@ + ty + ","@,
        (Piece::Reference, Kind::ArrayMut) => p.name + ": &mut ["@ + ty + "],"@,
        (Piece::Reference, _) => p.name + ": &["@ + ty + "],"@,
        (Piece::Buffer, Kind::ArrayRef) => "("@ + literal(p.name) + ", false),"@,
        (Piece::Buffer, Kind::ArrayMut) => "("@ + literal(p.name) + ", true),"@,
        (Piece::Buffer, _) => ""@,
        (Piece::Definition, Kind::ArrayRef) => filled(DEFINE_INPUT@, 0, seq![p.name, ty]),
        (Piece::Definition, Kind::ArrayMut) => filled(DEFINE_OUTPUT@, 0, seq![p.name, ty]),
        (Piece::Definition, _) => filled(DEFINE_SCALAR@, 0, seq![p.name, ty]),
        (Piece::Argument, _) => p.name + ","@,
    }
}

fn build_piece(p: &Param<'_>, piece: Piece) -> (r: String)
    ensures
        r@ == piece_text(p.model(), piece),
{
    let ty = p.ty.text.as_str();
    match (piece, p.kind) {
        (Piece::Predicate, Kind::Scalar) => cat4(p.name, ": ", ty, ","),
        (Piece::Predicate, _) => cat4(p.name, ": &[", ty, "],"),
        (Piece::Reference, Kind::Scalar) => cat4(p.name, ": ", ty, ","),
        (Piece::Reference, Kind::ArrayMut) => cat4(p.name, ": &mut [", ty, "],"),
        (Piece::Reference, _) => cat4(p.name, ": &[", ty, "],"),
        (Piece::Buffer, Kind::ArrayRef) => cat3("(", quote(p.name).as_str(), ", false),"),
        (Piece::Buffer, Kind::ArrayMut) => cat3("(", quote(p.name).as_str(), ", true),"),
        (Piece::Buffer, _) => "".to_owned(),
        (Piece::Definition, Kind::ArrayRef) => fill2(DEFINE_INPUT, p.name, ty),
        (Piece::Definition, Kind::ArrayMut) => fill2(DEFINE_OUTPUT, p.name, ty),
        (Piece::Definition, _) => fill2(DEFINE_SCALAR, p.name, ty),
        (Piece::Argument, _) => cat2(p.name, ","),
    }
}

pub open spec fn pieces_text(params: Seq<ParamText>, i: nat, piece: Piece) -> Seq<char>
    decreases params.len() - i,
{
    if i >= params.len() {
        seq![]
    } else {
        piece_text(params[i as int], piece) + pieces_text(params, i + 1, piece)
    }
}

fn build_pieces(params: &Vec<Param<'_>>, piece: Piece) -> (r: String)
    ensures
        r@ == pieces_text(param_models(params@), 0, piece),
{
    let mut out = String::new();
    let mut i: usize = 0;
    assert(out@ + pieces_text(param_models(params@), 0, piece) =~= pieces_text(
        param_models(params@),
        0,
        piece,
    ));
    while i < params.len()
        invariant
            i <= params@.len(),
            out@ + pieces_text(param_models(params@), i as nat, piece) == pieces_text(
                param_models(params@),
                0,
                piece,
            ),
        decreases params@.len() - i,
    {
        assert(param_models(params@)[i as int] == params@[i as int].model());
        let ghost before = out@;
        let here = build_piece(&params[i], piece);
        out.append(here.as_str());
        proof {
            lemma_next(before, here@, pieces_text(param_models(params@), (i + 1) as nat, piece), before + here@);
        }
        i = i + 1;
    }
    assert(out@ =~= out@ + seq![]);
    out
}

/// Whether `name` is an array among the parameters from the `i`-th on.
pub open spec fn is_array(params: Seq<ParamText>, i: nat, name: Seq<char>) -> bool
    decreases params.len() - i,
{
    i < params.len() && (((params[i as int].kind is ArrayRef || params[i as int].kind is ArrayMut)
        && params[i as int].name == name) || is_array(params, i + 1, name))
}

fn names_array(params: &Vec<Param<'_>>, name: &str) -> (r: bool)
    ensures
        r == is_array(param_models(params@), 0, name@),
{
    let mut i: usize = 0;
    while i < params.len()
        invariant
            i <= params@.len(),
            is_array(param_models(params@), 0, name@) == is_array(
                param_models(params@),
                i as nat,
                name@,
            ),
        decreases params@.len() - i,
    {
        assert(param_models(params@)[i as int] == params@[i as int].model());
        if (params[i].kind == Kind::ArrayRef || params[i].kind == Kind::ArrayMut) && same(
            params[i].name,
            name,
        ) {
            return true;
        }
        i = i + 1;
    }
    false
}

/// The code for the fact that an assume states of arrays of the kernel.
pub open spec fn fact_text(f: Option<FactText>, params: Seq<ParamText>) -> Seq<char> {
    match f {
        Some(FactText::Same { a, b }) => if is_array(params, 0, a) && is_array(params, 0, b) {
            filled(LEN_EQ@, 0, seq![a, b])
        } else {
            ""@
        },
        Some(FactText::Known { a, value }) => if is_array(params, 0, a) {
            filled(LEN_EQ_CONST@, 0, seq![a, numeral(value as nat)])
        } else {
            ""@
        },
        None => ""@,
    }
}

/// The parts of a module that have a piece for every assume.
#[derive(Clone, Copy, Debug, PartialEq, Eq, Structural)]
pub enum Reading {
    /// As a condition.
    Condition,
    /// In words.
    Words,
    /// As a fact for the bounds check.
    Fact,
}

pub open spec fn reading_text(a: AssumptionText, reading: Reading, params: Seq<ParamText>) -> Seq<char> {
    match reading {
        Reading::Condition => " && ("@ + a.text + ")"@,
        Reading::Words => literal(tidied(a.text)) + ","@,
        Reading::Fact => fact_text(a.fact, params),
    }
}

fn build_reading(a: &Assumption, reading: Reading, params: &Vec<Param<'_>>) -> (r: String)
    ensures
        r@ == reading_text(a.model(), reading, param_models(params@)),
{
    match reading {
        Reading::Condition => cat3(" && (", a.text.as_str(), ")"),
        Reading::Words => cat2(quote(pretty(a.text.as_str()).as_str()).as_str(), ","),
        Reading::Fact => structured_assume(&a.fact, params),
    }
}

/// The fact that an assume states of arrays of the kernel, as code; nothing for any other
/// assume.
pub fn structured_assume(fact: &Option<LengthFact>, params: &Vec<Param<'_>>) -> (r: String)
    ensures
        r@ == fact_text(
            match *fact {
                Some(f) => Some(f.model()),
                None => None,
            },
            param_models(params@),
        ),
{
    match fact {
        Some(LengthFact::Same { a, b }) => if names_array(params, a.as_str()) && names_array(
            params,
            b.as_str(),
        ) {
            fill2(LEN_EQ, a.as_str(), b.as_str())
        } else {
            "".to_owned()
        },
        Some(LengthFact::Known { a, value }) => if names_array(params, a.as_str()) {
            fill2(LEN_EQ_CONST, a.as_str(), decimal(*value as u128).as_str())
        } else {
            "".to_owned()
        },
        None => "".to_owned(),
    }
}

pub open spec fn readings_text(
    list: Seq<AssumptionText>,
    i: nat,
    reading: Reading,
    params: Seq<ParamText>,
) -> Seq<char>
    decreases list.len() - i,
{
    if i >= list.len() {
        seq![]
    } else {
        reading_text(list[i as int], reading, params) + readings_text(list, i + 1, reading, params)
    }
}

fn build_readings(list: &Vec<Assumption>, reading: Reading, params: &Vec<Param<'_>>) -> (r: String)
    ensures
        r@ == readings_text(assumption_models(list@), 0, reading, param_models(params@)),
{
    let mut out = String::new();
    let mut i: usize = 0;
    let ghost ms = assumption_models(list@);
    let ghost ps = param_models(params@);
    assert(out@ + readings_text(ms, 0, reading, ps) =~= readings_text(ms, 0, reading, ps));
    while i < list.len()
        invariant
            i <= list@.len(),
            ms == assumption_models(list@),
            ps == param_models(params@),
            out@ + readings_text(ms, i as nat, reading, ps) == readings_text(ms, 0, reading, ps),
        decreases list@.len() - i,
    {
        assert(ms[i as int] == list@[i as int].model());
        let ghost before = out@;
        let here = build_reading(&list[i], reading, params);
        out.append(here.as_str());
        proof {
            lemma_next(before, here@, readings_text(ms, (i + 1) as nat, reading, ps), before + here@);
        }
        i = i + 1;
    }
    assert(out@ =~= out@ + seq![]);
    out
}

// ---- the module ----------------------------------------------------------------------------------

pub open spec fn truth_text(b: bool) -> Seq<char> {
    if b {
        "true"@
    } else {
        "false"@
    }
}

/// The code of the module, for a contract and parameters that are in order.
pub open spec fn module_text(
    kernel: Kernel,
    contract: ContractText,
    params: Seq<ParamText>,
    attr: Seq<char>,
    version: Seq<char>,
    items: Seq<char>,
) -> Seq<char> {
    let name = kernel.name@;
    let wrapping = contract.wrapping is Some;
    filled(
        MODULE@,
        0,
        seq![
            literal(
                filled(
                    if wrapping {
                        DOC_WRAPPING@
                    } else {
                        DOC@
                    },
                    0,
                    seq![name, contract.compare_text],
                ),
            ),
            kernel.vis@,
            name,
            hash_text(vstd::utf8::encode_utf8(identity_text(kernel.text@, attr, version))),
            listed(readings_text(contract.assumes, 0, Reading::Words, params)),
            listed(readings_text(contract.assumes, 0, Reading::Fact, params)),
            contract.compare,
            truth_text(wrapping),
            listed(pieces_text(params, 0, Piece::Predicate)),
            readings_text(contract.assumes, 0, Reading::Condition, params),
            pieces_text(params, 0, Piece::Reference),
            if wrapping {
                wrapping_text(kernel.tree, Naming::Sequential)
            } else {
                tokens_text(kernel.body, 0, Naming::Sequential)
            },
            listed(pieces_text(params, 0, Piece::Buffer)),
            pieces_text(params, 0, Piece::Definition),
            listed(pieces_text(params, 0, Piece::Argument)),
            items,
            pasted(kernel.name@),
        ],
    )
}

/// The module of a kernel, or what stands in its way.
pub open spec fn expanded(
    kernel: Kernel,
    attr: Seq<char>,
    version: Seq<char>,
) -> Result<Seq<char>, Seq<Said>> {
    match contract_in(attr) {
        Err(e) => Err(seq![e]),
        Ok(contract) => if kernel.generics is Some {
            Err(seq![says(kernel.generics->0, GENERIC_KERNEL@)])
        } else if kernel.output is Some {
            Err(seq![says(kernel.output->0, RETURNS_VALUE@)])
        } else {
            match classified_from(kernel.args@, 0, seq![]) {
                Err(e) => Err(seq![e]),
                Ok(params) => if contract.wrapping is Some && not_wrapping(params, 0) is Some {
                    Err(seq![not_wrapping(params, 0)->0])
                } else if tokens_say(kernel.body, 0).len() > 0 {
                    Err(tokens_say(kernel.body, 0))
                } else {
                    match conformance(
                        params,
                        contract.entries,
                        kernel.name@,
                        Mode::Ordinary,
                        ""@,
                        ""@,
                    ) {
                        Err(e) => Err(seq![e]),
                        Ok(items) => Ok(
                            module_text(kernel, contract, params, attr, version, items),
                        ),
                    }
                },
            }
        },
    }
}

fn alone(d: Diagnostic) -> (r: Vec<Diagnostic>)
    ensures
        said(r@) == seq![d.says()],
{
    let r = vec![d];
    assert(said(r@) =~= seq![d.says()]);
    r
}

fn module(
    kernel: &Kernel,
    contract: &Contract,
    params: &Vec<Param<'_>>,
    body: String,
    attr: &str,
    version: &str,
    items: String,
) -> (r: String)
    requires
        body@ == (if contract.wrapping is Some {
            wrapping_text(kernel.tree, Naming::Sequential)
        } else {
            tokens_text(kernel.body, 0, Naming::Sequential)
        }),
    ensures
        r@ == module_text(
            *kernel,
            contract.model(),
            param_models(params@),
            attr@,
            version@,
            items@,
        ),
{
    let name = kernel.name.as_str();
    let wrapping = contract.wrapping.is_some();
    let doc = if wrapping {
        DOC_WRAPPING
    } else {
        DOC
    };
    let parts = vec![
        quote(fill2(doc, name, contract.compare_text.as_str()).as_str()),
        kernel.vis.clone(),
        kernel.name.clone(),
        source_hash(kernel.text.as_str(), attr, version),
        list(build_readings(&contract.assumes, Reading::Words, params).as_str()),
        list(build_readings(&contract.assumes, Reading::Fact, params).as_str()),
        contract.compare.clone(),
        if wrapping {
            "true".to_owned()
        } else {
            "false".to_owned()
        },
        list(build_pieces(params, Piece::Predicate).as_str()),
        build_readings(&contract.assumes, Reading::Condition, params),
        build_pieces(params, Piece::Reference),
        body,
        list(build_pieces(params, Piece::Buffer).as_str()),
        build_pieces(params, Piece::Definition),
        list(build_pieces(params, Piece::Argument).as_str()),
        items,
        paste(name),
    ];
    let ghost ps = param_models(params@);
    let ghost cs = contract.model();
    assert(texts(parts@) =~= seq![
        literal(
            filled(
                if wrapping {
                    DOC_WRAPPING@
                } else {
                    DOC@
                },
                0,
                seq![name@, cs.compare_text],
            ),
        ),
        kernel.vis@,
        name@,
        hash_text(vstd::utf8::encode_utf8(identity_text(kernel.text@, attr@, version@))),
        listed(readings_text(cs.assumes, 0, Reading::Words, ps)),
        listed(readings_text(cs.assumes, 0, Reading::Fact, ps)),
        cs.compare,
        truth_text(wrapping),
        listed(pieces_text(ps, 0, Piece::Predicate)),
        readings_text(cs.assumes, 0, Reading::Condition, ps),
        pieces_text(ps, 0, Piece::Reference),
        body@,
        listed(pieces_text(ps, 0, Piece::Buffer)),
        pieces_text(ps, 0, Piece::Definition),
        listed(pieces_text(ps, 0, Piece::Argument)),
        items@,
        pasted(name@),
    ]);
    fill(MODULE, &parts)
}

/// The module of a kernel: contract, twin, and comparison. `attr` is the text of the contract.
pub fn expand(kernel: &Kernel, attr: &str, version: &str) -> (r: Result<
    String,
    Vec<Diagnostic>,
>)
    ensures
        match (r, expanded(*kernel, attr@, version@)) {
            (Ok(code), Ok(m)) => code@ == m,
            (Err(ds), Err(m)) => said(ds@) == m && m.len() > 0,
            _ => false,
        },
{
    let contract = match parse_contract(attr) {
        Ok(c) => c,
        Err(d) => {
            return Err(alone(d));
        },
    };
    if let Some(at) = kernel.generics {
        return Err(alone(Diagnostic { at, text: GENERIC_KERNEL.to_owned() }));
    }
    if let Some(at) = kernel.output {
        return Err(alone(Diagnostic { at, text: RETURNS_VALUE.to_owned() }));
    }
    let params = match classify_params(&kernel.args) {
        Ok(p) => p,
        Err(d) => {
            return Err(alone(d));
        },
    };
    if contract.wrapping.is_some() {
        if let Err(d) = check_wrapping(&params) {
            return Err(alone(d));
        }
    }
    let plain = transform_body(&kernel.body)?;
    let body = if contract.wrapping.is_some() {
        wrapping_body(&kernel.tree)
    } else {
        plain
    };
    match build_conformance_items(
        &params,
        &contract.entries,
        kernel.name.as_str(),
        Mode::Ordinary,
        "",
        "",
    ) {
        Err(d) => Err(alone(d)),
        Ok(items) => Ok(module(kernel, &contract, &params, body, attr, version, items)),
    }
}

pub const OTHER_OPERATORS: &'static str = "the operators handed over for kernel `#a` are not those of its body";

/// The operands in the body are where the tree of operators has them.
pub open spec fn fits_body(k: Kernel) -> bool {
    is_tree_of(tokens_text(k.body, 0, Naming::AsWritten), k.tree)
}

/// What a kernel gives.
pub open spec fn gives(
    k: Kernel,
    attr: Seq<char>,
    version: Seq<char>,
    r: Result<String, Vec<Diagnostic>>,
) -> bool {
    if fits_body(k) {
        match (r, expanded(k, attr, version)) {
            (Ok(code), Ok(m)) => code@ == m,
            (Err(ds), Err(m)) => said(ds@) == m && m.len() > 0,
            _ => false,
        }
    } else {
        r matches Err(ds) && said(ds@) == seq![
            says(0, filled(OTHER_OPERATORS@, 0, seq![k.name@])),
        ]
    }
}

/// The module of a kernel, from the source text of the kernel and of its contract. `tree`
/// says which tokens of the body are the operands of which operator, and is held against what
/// the parser says of it.
pub fn expand_text(item: &str, attr: &str, version: &str, tree: Tree) -> (r: Result<
    String,
    Vec<Diagnostic>,
>)
    ensures
        match (no_kernel(item@), normal_text(attr@)) {
            (Some(e), _) => r matches Err(ds) && said(ds@) == seq![says(0, e)],
            (None, Err(e)) => r matches Err(ds) && said(ds@) == seq![says(0, e)],
            (None, Ok(t)) => exists|k: Kernel| #[trigger]
                is_kernel_of(item@, k) && k.tree == tree && gives(k, t, version@, r),
        },
{
    let k = match read_kernel(item, tree) {
        Ok(k) => k,
        Err(e) => {
            return Err(alone(Diagnostic { at: 0, text: e }));
        },
    };
    let normal = match print_tokens(attr) {
        Ok(t) => t,
        Err(e) => {
            return Err(alone(Diagnostic { at: 0, text: e }));
        },
    };
    let body = print(&k.body, Naming::AsWritten);
    let r = if check_tree(body.as_str(), &k.tree) {
        expand(&k, normal.as_str(), version)
    } else {
        Err(alone(Diagnostic { at: 0, text: fill1(OTHER_OPERATORS, k.name.as_str()) }))
    };
    assert(is_kernel_of(item@, k) && gives(k, normal@, version@, r));
    r
}

proof fn lemma_all_wrap(params: Seq<ParamText>, i: nat, j: int)
    requires
        not_wrapping(params, i) is None,
        i <= j < params.len(),
    ensures
        wraps(params[j].ty),
    decreases params.len() - i,
{
    if i < j {
        lemma_all_wrap(params, i + 1, j);
    }
}

/// A kernel that gets a module is in the subset: it is not generic and returns nothing, no
/// name in its body is outside the subset, and arithmetic wraps only where every parameter
/// is an integer or an array of integers.
pub proof fn law_accepted_kernels_are_in_the_subset(
    kernel: Kernel,
    attr: Seq<char>,
    version: Seq<char>,
    n: Seq<char>,
    j: int,
)
    requires
        expanded(kernel, attr, version) is Ok,
    ensures
        kernel.generics is None,
        kernel.output is None,
        occurs(kernel.body, 0, n) ==> !is_banned(n),
        contract_in(attr) is Ok,
        classified_from(kernel.args@, 0, seq![]) is Ok,
        ({
            let contract = contract_in(attr)->Ok_0;
            let params = classified_from(kernel.args@, 0, seq![])->Ok_0;
            contract.wrapping is Some && 0 <= j < params.len() ==> wraps(params[j].ty)
        }),
{
    if occurs(kernel.body, 0, n) {
        law_accepted_names_are_in_the_subset(kernel.body, 0, n);
    }
    let contract = contract_in(attr)->Ok_0;
    let params = classified_from(kernel.args@, 0, seq![])->Ok_0;
    if contract.wrapping is Some && 0 <= j < params.len() {
        lemma_all_wrap(params, 0, j);
    }
}

} // verus!
