//! Inputs for a kernel and its twin, and the comparison of what they compute.
use vstd::prelude::*;
use vstd::string::*;
use crate::contract::{entry_models, EntryText, GenEntry};
use crate::syntax::{
    last_ident, last_name, says, Args, Diagnostic, GenericArg, Path, Said, Shape, Ty,
};
use crate::template::{fill, fill1, fill2, fill3, filled, lemma_next, texts};
use crate::text::{cat2, cat3, list, listed, literal, paste, pasted, quote, same};

verus! {

// ---- messages -----------------------------------------------------------------------------

pub const NOT_A_PARAMETER: &'static str = "gen(...) declares a range for `#a`, but `#a` is not a parameter of `#b`";

pub const SECOND_RANGE: &'static str = "gen(...) declares more than one range for `#a`";

pub const LEN_NOT_A_PARAMETER: &'static str = "gen(...) declares len(...) for `#a`, but `#a` is not a parameter of `#b`";

pub const LEN_OF_SCALAR: &'static str = "gen(...) len(...) only applies to Array parameters; `#a` is a scalar";

pub const SECOND_LEN: &'static str = "gen(...) declares len(...) more than once for `#a`";

pub const SCALAR_TYPE: &'static str = "gen(...) v0 only supports f32/u32/i32/u64/i64 scalar parameters; `#a: #b` is outside that \
    set";

pub const SCALAR_RANGE: &'static str = "kernel `#a`: parameter `#b` is a float with no declared gen(...) range — declare `gen(#b in \
    lo..=hi)`; unbounded float generation produces NaN/inf-adjacent garbage and un-provable \
    tolerances";

pub const ELEMENT_TYPE: &'static str = "gen(...) v0 only supports f32/u32/i32/u64/i64 array elements; `#a: Array<#b>` is outside \
    that set";

pub const ARRAY_RANGE: &'static str = "kernel `#a`: parameter `#b` is a float array with no declared gen(...) range — declare \
    `gen(#b in lo..=hi)`; unbounded float generation produces NaN/inf-adjacent garbage and \
    un-provable tolerances";

pub const NOT_COMPARED: &'static str = "conformance_case v0 only supports comparing f32 or u32 `&mut Array` elements; `#a: &mut \
    Array<#b>` is outside that set";

pub const PARTIAL_NOT_COMPARED: &'static str = "cooperative conformance_case v0 only compares f32, f64, or u32 `&mut Array` partials; `#a: \
    &mut Array<#b>` is outside that set";

pub const SELF_PARAMETER: &'static str = "self parameters are not supported";

pub const PARAMETER_ATTRIBUTE: &'static str = "parameter attributes (e.g. #[comptime]) are outside the vericl v0 subset";

pub const NOT_A_NAME: &'static str = "expected a plain parameter name";

pub const NOT_AN_ARRAY: &'static str = "reference parameters must be &Array<T> or &mut Array<T> in the vericl v0 subset";

pub const PARAMETER_TYPE: &'static str = "unsupported parameter type in the vericl v0 subset";

// ---- code -----------------------------------------------------------------------------------

/// How inputs are drawn: field types, draws, arguments of the check, fields, kernel.
pub const GENERATE_CASE: &'static str = "#[doc = \" Generate one differential case's inputs deterministically from\"] #[doc = \" `(n, \
    seed)`, in kernel-parameter declaration order (not\"] #[doc = \" `gen(...)` clause order) — \
    see the `gen(...)` contract clause.\"] #[doc = \" Resamples up to 64 times if \
    `check_assumes` rejects the draw,\"] #[doc = \" then panics naming the kernel: a persistent \
    rejection means the\"] #[doc = \" declared `gen(...)` ranges are inconsistent with the \
    kernel's\"] #[doc = \" own `assumes(...)` clauses, an authoring bug to fix rather than\"] \
    #[doc = \" a runtime condition to recover from.\"] fn generate_case(n: usize, seed: u64) -> \
    ( #a ) { let mut __vericl_rng = ::vericl::SplitMix64::new(seed); for _vericl_attempt in \
    0..64u32 { #b if check_assumes(#c) { return ( #d ); } } panic!( \"kernel `{}`: gen(...) \
    could not produce inputs satisfying assumes(...) after 64 resample attempts — the declared \
    gen(...) ranges are inconsistent with this kernel's assumes(...) clauses\", #e, ); }";

/// How a kernel is compared with its twin.
pub const CONFORMANCE_CASE: &'static str = "#[doc = \" Run one differential case: generate inputs via `gen(...)`, run\"] #[doc = \" the \
    sequential reference (catching a panic as a finding, not a\"] #[doc = \" harness crash), \
    launch the real kernel with standard 1D dispatch\"] #[doc = \" (`CubeCount = \
    ceil(n/cube_dim)`, `num_threads = count*cube_dim`),\"] #[doc = \" and compare every `&mut \
    Array` parameter's final contents\"] #[doc = \" against the reference's — the single point \
    of custody for the\"] #[doc = \" GPU launch/input-gen glue every kernel previously \
    hand-wrote.\"] pub fn conformance_case<R: ::cubecl::prelude::Runtime>( client: \
    &::cubecl::prelude::ComputeClient<R>, n: usize, seed: u64, cube_dim: u32, ) -> \
    ::vericl::CaseOutcome { let ( #a ) = generate_case(n, seed); #b let __vericl_count = (n as \
    u32).div_ceil(cube_dim).max(1); let __vericl_cube_count = \
    ::cubecl::prelude::CubeCount::Static(__vericl_count, 1, 1); let __vericl_cube_dim = \
    ::cubecl::prelude::CubeDim::new_1d(cube_dim); let __vericl_num_threads = (__vericl_count * \
    cube_dim) as usize; let __vericl_ref_outcome = ::vericl::catch_reference_panic(|| { \
    reference(#c __vericl_num_threads); }); match __vericl_ref_outcome { Err(__vericl_panic_msg) \
    => ::vericl::CaseOutcome { case: format!(\"n={n}\"), reports: ::std::vec::Vec::new(), \
    reference_panic: Some(__vericl_panic_msg), }, Ok(()) => { #d #e::launch::<R>( client, \
    __vericl_cube_count, __vericl_cube_dim, #f ); #g let mut __vericl_reports: \
    ::std::vec::Vec<(::std::string::String, ::vericl::CompareReport)> = ::std::vec::Vec::new(); \
    #h ::vericl::CaseOutcome { case: format!(\"n={n}\"), reports: __vericl_reports, \
    reference_panic: None, } } } }";

/// The same for a cooperative kernel, whose outputs have one element for every block.
pub const COOPERATIVE_GENERATE_CASE: &'static str = "#[doc = \" Generate one cooperative differential case: input arrays sized `n`\"] #[doc = \" \
    and scalars via `gen(...)`, output `&mut Array` partials sized\"] #[doc = \" `cube_count` \
    (per-cube outputs, §7.1), zero-initialised. Resamples\"] #[doc = \" against `check_assumes` \
    up to 64 times, then panics naming the\"] #[doc = \" kernel (the `gen(...)`/`assumes(...)` \
    machinery is unchanged for the\"] #[doc = \" inputs — the only divergence is the output \
    sizing).\"] fn generate_case(n: usize, seed: u64, __vericl_cube_count: usize) -> ( #a ) { \
    let mut __vericl_rng = ::vericl::SplitMix64::new(seed); for _vericl_attempt in 0..64u32 { #b \
    if check_assumes(#c) { return ( #d ); } } panic!( \"kernel `{}`: gen(...) could not produce \
    inputs satisfying assumes(...) after 64 resample attempts — the declared gen(...) ranges are \
    inconsistent with this kernel's assumes(...) clauses\", #e, ); }";

/// How a cooperative kernel is compared with its twin.
pub const COOPERATIVE_CONFORMANCE_CASE: &'static str = "#[doc = \" Run one cooperative differential case (docs/design-shared-memory.md\"] #[doc = \" \
    §7.1): dispatch `(cube_count, cube_dim)` with `cube_count = ceil(n /\"] #[doc = \" \
    cube_dim)`, size each `&mut Array` output to `cube_count`, run the\"] #[doc = \" phase-split \
    reference, and compare per-cube partials. The passed\"] #[doc = \" `cube_dim` MUST equal the \
    `cooperative(cube_dim = …)` pinned value\"] #[doc = \" (the single source of truth binding \
    `CUBE_DIM` — §9 risk 5); a\"] #[doc = \" mismatch is a harness bug and panics.\"] pub fn \
    conformance_case<R: ::cubecl::prelude::Runtime>( client: \
    &::cubecl::prelude::ComputeClient<R>, n: usize, seed: u64, cube_dim: u32, ) -> \
    ::vericl::CaseOutcome { let __vericl_pinned: u32 = #i; assert_eq!( cube_dim, \
    __vericl_pinned, \"cooperative kernel `{}` is pinned to cube_dim = {} by its \
    cooperative(...) clause, but the suite launched it with cube_dim = {} — binding CUBE_DIM to \
    a block size the launch does not use is unsound (docs/design-shared-memory.md §9 risk 5)\", \
    #j, __vericl_pinned, cube_dim, ); let __vericl_count = (n as u32).div_ceil(cube_dim).max(1); \
    let __vericl_cube_count = __vericl_count as usize; let ( #a ) = generate_case(n, seed, \
    __vericl_cube_count); #b let __vericl_ref_outcome = ::vericl::catch_reference_panic(|| { \
    reference(#c __vericl_cube_count, cube_dim as usize); }); match __vericl_ref_outcome { \
    Err(__vericl_panic_msg) => ::vericl::CaseOutcome { case: format!(\"n={n}\"), reports: \
    ::std::vec::Vec::new(), reference_panic: Some(__vericl_panic_msg), }, Ok(()) => { #d \
    #e::launch::#k( client, ::cubecl::prelude::CubeCount::Static(__vericl_count, 1, 1), \
    ::cubecl::prelude::CubeDim::new_1d(cube_dim), #f ); #g let mut __vericl_reports: \
    ::std::vec::Vec<(::std::string::String, ::vericl::CompareReport)> = ::std::vec::Vec::new(); \
    #h ::vericl::CaseOutcome { case: format!(\"n={n}\"), reports: __vericl_reports, \
    reference_panic: None, } } } }";

pub const DRAW_RANGE: &'static str = "{ let __lo: #a = #b; let __hi: #a = #c; let __span: i128 = (__hi as i128) - (__lo as i128) + \
    1; (__lo as i128 + (__vericl_rng.next_u64() as i128).rem_euclid(__span)) as #a }";

pub const DRAW_WORD: &'static str = "__vericl_rng.next_u32() as #a";

pub const DRAW_LONG: &'static str = "__vericl_rng.next_u64() as #a";

pub const SCALAR_FLOAT: &'static str = "let #a: #b = __vericl_rng.next_f32_range((#c) as f32, (#d) as f32);";

pub const SCALAR_INTEGER: &'static str = "let #a: #b = #c;";

pub const ARRAY_FLOAT: &'static str = "let #a: ::std::vec::Vec<#b> = __vericl_rng.fill_f32(#c, (#d) as f32, (#e) as f32);";

pub const ARRAY_INTEGER: &'static str = "let #a: ::std::vec::Vec<#b> = (0..#c).map(|_| #d).collect();";

pub const ARRAY_OUTPUT: &'static str = "let #a: ::std::vec::Vec<#b> = ::std::vec![::core::default::Default::default(); \
    __vericl_cube_count];";

pub const PINNED_LENGTH: &'static str = "(#a) as usize";

pub const VEC_TYPE: &'static str = "::std::vec::Vec<#a>,";

pub const COPY_OF_OUTPUT: &'static str = "let mut __vericl_#c_ref: ::std::vec::Vec<#b> = #a.clone();";

pub const UPLOAD: &'static str = "let __vericl_#c_handle = client.create_from_slice( <#b as \
    ::cubecl::prelude::CubeElement>::as_bytes(&#a), );";

pub const LAUNCH_INPUT: &'static str = "unsafe { ::cubecl::prelude::ArrayArg::from_raw_parts(__vericl_#b_handle, #a.len()) }";

pub const LAUNCH_OUTPUT: &'static str = "unsafe { ::cubecl::prelude::ArrayArg::from_raw_parts(__vericl_#b_handle.clone(), #a.len()) }";

pub const READ_BACK: &'static str = "let __vericl_#c_gpu: ::std::vec::Vec<#b> = <#b as \
    ::cubecl::prelude::CubeElement>::from_bytes( &client.read_one(__vericl_#c_handle).unwrap(), \
    ) .to_vec();";

pub const COMPARED: &'static str = "__vericl_reports.push((\"#a\".to_string(), ::vericl::compare_#b_with(contract().compare, \
    &__vericl_#c_ref, &__vericl_#c_gpu)));";

// ---- parameters -----------------------------------------------------------------------------

/// A parameter of a kernel, as written.
#[derive(Debug)]
pub enum Arg {
    Receiver(usize),
    /// `name` is absent where the pattern is not a plain name.
    Typed { at: usize, attributes: bool, pattern_at: usize, name: Option<String>, ty: Ty },
}

#[derive(Clone, Copy, Debug, PartialEq, Eq, Structural)]
pub enum Kind {
    /// A value.
    Scalar,
    /// An array to read.
    ArrayRef,
    /// An array to write.
    ArrayMut,
    /// A value that is fixed when the kernel is compiled.
    Comptime,
}

/// A parameter: `ty` is the type of a value, or of the elements of an array.
#[derive(Debug)]
pub struct Param<'a> {
    pub name: &'a str,
    pub kind: Kind,
    pub ty: &'a Ty,
    /// The value of a fixed parameter.
    pub pinned: &'a str,
}

pub struct ParamText {
    pub name: Seq<char>,
    pub kind: Kind,
    pub ty: Ty,
    pub pinned: Seq<char>,
}

impl<'a> Param<'a> {
    pub open spec fn model(self) -> ParamText {
        ParamText { name: self.name@, kind: self.kind, ty: *self.ty, pinned: self.pinned@ }
    }
}

pub open spec fn param_models(list: Seq<Param<'_>>) -> Seq<ParamText> {
    list.map_values(|p: Param<'_>| p.model())
}

/// The element type of `Array<T>`.
pub open spec fn element(ty: Ty) -> Option<Ty> {
    match ty.shape {
        Shape::Path { path, .. } => if path.segments@.len() > 0 && last_ident(path) == "Array"@ {
            match path.segments@.last().args {
                Args::Angle(args) => if args@.len() == 1 {
                    match args@[0] {
                        GenericArg::Type(t) => Some(t),
                        GenericArg::Other => None,
                    }
                } else {
                    None
                },
                _ => None,
            }
        } else {
            None
        },
        _ => None,
    }
}

pub fn elem_of_array(ty: &Ty) -> (r: Option<&Ty>)
    ensures
        match (r, element(*ty)) {
            (Some(t), Some(m)) => *t == m,
            (None, None) => true,
            _ => false,
        },
{
    match &ty.shape {
        Shape::Path { path, .. } => {
            let n = path.segments.len();
            if n == 0 || !same(last_name(path), "Array") {
                return None;
            }
            match &path.segments[n - 1].args {
                Args::Angle(args) => if args.len() == 1 {
                    match &args[0] {
                        GenericArg::Type(t) => Some(t),
                        GenericArg::Other => None,
                    }
                } else {
                    None
                },
                _ => None,
            }
        },
        _ => None,
    }
}

/// What a parameter is.
pub open spec fn classified(arg: Arg) -> Result<ParamText, Said> {
    match arg {
        Arg::Receiver(at) => Err(says(at, SELF_PARAMETER@)),
        Arg::Typed { at, attributes, pattern_at, name, ty } => if attributes {
            Err(says(at, PARAMETER_ATTRIBUTE@))
        } else {
            match name {
                None => Err(says(pattern_at, NOT_A_NAME@)),
                Some(name) => match ty.shape {
                    Shape::Reference { mutable, elem } => match element(*elem) {
                        None => Err(says(ty.at, NOT_AN_ARRAY@)),
                        Some(e) => Ok(
                            ParamText {
                                name: name@,
                                kind: if mutable {
                                    Kind::ArrayMut
                                } else {
                                    Kind::ArrayRef
                                },
                                ty: e,
                                pinned: ""@,
                            },
                        ),
                    },
                    Shape::Path { .. } => Ok(
                        ParamText { name: name@, kind: Kind::Scalar, ty, pinned: ""@ },
                    ),
                    _ => Err(says(ty.at, PARAMETER_TYPE@)),
                },
            }
        },
    }
}

pub fn classify_param(arg: &Arg) -> (r: Result<Param<'_>, Diagnostic>)
    ensures
        match (r, classified(*arg)) {
            (Ok(p), Ok(m)) => p.model() == m,
            (Err(d), Err(m)) => d.says() == m,
            _ => false,
        },
{
    match arg {
        Arg::Receiver(at) => Err(Diagnostic { at: *at, text: SELF_PARAMETER.to_owned() }),
        Arg::Typed { at, attributes, pattern_at, name, ty } => {
            if *attributes {
                return Err(Diagnostic { at: *at, text: PARAMETER_ATTRIBUTE.to_owned() });
            }
            match name {
                None => Err(Diagnostic { at: *pattern_at, text: NOT_A_NAME.to_owned() }),
                Some(name) => match &ty.shape {
                    Shape::Reference { mutable, elem } => match elem_of_array(elem) {
                        None => Err(Diagnostic { at: ty.at, text: NOT_AN_ARRAY.to_owned() }),
                        Some(e) => {
                            let kind = if *mutable {
                                Kind::ArrayMut
                            } else {
                                Kind::ArrayRef
                            };
                            Ok(Param { name: name.as_str(), kind, ty: e, pinned: "" })
                        },
                    },
                    Shape::Path { .. } => Ok(
                        Param { name: name.as_str(), kind: Kind::Scalar, ty, pinned: "" },
                    ),
                    _ => Err(Diagnostic { at: ty.at, text: PARAMETER_TYPE.to_owned() }),
                },
            }
        },
    }
}

/// The parameters, or what is wrong with the first one that is not in order.
pub open spec fn classified_from(args: Seq<Arg>, i: nat, found: Seq<ParamText>) -> Result<
    Seq<ParamText>,
    Said,
>
    decreases args.len() - i,
{
    if i >= args.len() {
        Ok(found)
    } else {
        match classified(args[i as int]) {
            Err(e) => Err(e),
            Ok(p) => classified_from(args, i + 1, found.push(p)),
        }
    }
}

pub fn classify_params(args: &Vec<Arg>) -> (r: Result<Vec<Param<'_>>, Diagnostic>)
    ensures
        match (r, classified_from(args@, 0, seq![])) {
            (Ok(v), Ok(m)) => param_models(v@) == m,
            (Err(d), Err(m)) => d.says() == m,
            _ => false,
        },
{
    let mut out: Vec<Param<'_>> = Vec::new();
    assert(param_models(out@) =~= seq![]);
    let mut i: usize = 0;
    while i < args.len()
        invariant
            i <= args@.len(),
            classified_from(args@, 0, seq![]) == classified_from(
                args@,
                i as nat,
                param_models(out@),
            ),
        decreases args@.len() - i,
    {
        let ghost before = out@;
        let p = classify_param(&args[i])?;
        out.push(p);
        proof {
            assert(param_models(out@) =~= param_models(before).push(p.model()));
        }
        i = i + 1;
    }
    Ok(out)
}

// ---- kinds of numbers -----------------------------------------------------------------------

/// The numbers that can be drawn or compared.
#[derive(Clone, Copy, Debug, PartialEq, Eq, Structural)]
pub enum NumKind {
    Single,
    Double,
    U32,
    I32,
    U64,
    I64,
}

pub open spec fn kind_named(n: Seq<char>) -> Option<NumKind> {
    if n == "f32"@ {
        Some(NumKind::Single)
    } else if n == "f64"@ {
        Some(NumKind::Double)
    } else if n == "u32"@ {
        Some(NumKind::U32)
    } else if n == "i32"@ {
        Some(NumKind::I32)
    } else if n == "u64"@ {
        Some(NumKind::U64)
    } else if n == "i64"@ {
        Some(NumKind::I64)
    } else {
        None
    }
}

/// The kind of a type, by the last name of its path.
pub open spec fn kind_of(ty: Ty) -> Option<NumKind> {
    match ty.shape {
        Shape::Path { path, .. } => if path.segments@.len() > 0 {
            kind_named(last_ident(path))
        } else {
            None
        },
        _ => None,
    }
}

impl NumKind {
    pub fn of(ty: &Ty) -> (r: Option<NumKind>)
        ensures
            r == kind_of(*ty),
    {
        match &ty.shape {
            Shape::Path { path, .. } => {
                if path.segments.len() == 0 {
                    return None;
                }
                let n = last_name(path);
                if same(n, "f32") {
                    Some(NumKind::Single)
                } else if same(n, "f64") {
                    Some(NumKind::Double)
                } else if same(n, "u32") {
                    Some(NumKind::U32)
                } else if same(n, "i32") {
                    Some(NumKind::I32)
                } else if same(n, "u64") {
                    Some(NumKind::U64)
                } else if same(n, "i64") {
                    Some(NumKind::I64)
                } else {
                    None
                }
            },
            _ => None,
        }
    }

    pub open spec fn floats(self) -> bool {
        self is Single || self is Double
    }

    pub fn is_float(self) -> (r: bool)
        ensures
            r == self.floats(),
    {
        match self {
            NumKind::Single | NumKind::Double => true,
            _ => false,
        }
    }
}

// ---- what gen(..) is about --------------------------------------------------------------------

/// The first parameter called `name`, from the `i`-th on.
pub open spec fn param_named(params: Seq<ParamText>, name: Seq<char>, i: nat) -> Option<ParamText>
    decreases params.len() - i,
{
    if i >= params.len() {
        None
    } else if params[i as int].name == name {
        Some(params[i as int])
    } else {
        param_named(params, name, i + 1)
    }
}

/// The range of `name` among the first `n` entries; the first one counts.
pub open spec fn range_for(entries: Seq<EntryText>, n: nat, name: Seq<char>) -> Option<
    (Seq<char>, Seq<char>),
>
    decreases n,
{
    if n == 0 || n > entries.len() {
        None
    } else {
        match range_for(entries, (n - 1) as nat, name) {
            Some(r) => Some(r),
            None => match entries[n - 1] {
                EntryText::Range { name: k, lo, hi, .. } => if k == name {
                    Some((lo, hi))
                } else {
                    None
                },
                _ => None,
            },
        }
    }
}

/// The length of `name` among the first `n` entries.
pub open spec fn len_for(entries: Seq<EntryText>, n: nat, name: Seq<char>) -> Option<Seq<char>>
    decreases n,
{
    if n == 0 || n > entries.len() {
        None
    } else {
        match len_for(entries, (n - 1) as nat, name) {
            Some(v) => Some(v),
            None => match entries[n - 1] {
                EntryText::Len { name: k, value, .. } => if k == name {
                    Some(value)
                } else {
                    None
                },
                _ => None,
            },
        }
    }
}

/// What is wrong with the `k`-th entry: it names no parameter, gives a scalar a length, or
/// says again what an earlier one has said.
pub open spec fn entry_says(
    entries: Seq<EntryText>,
    k: nat,
    params: Seq<ParamText>,
    kernel: Seq<char>,
) -> Option<Said> {
    match entries[k as int] {
        EntryText::Range { at, name, .. } => if param_named(params, name, 0) is None {
            Some(says(at, filled(NOT_A_PARAMETER@, 0, seq![name, kernel])))
        } else if range_for(entries, k, name) is Some {
            Some(says(at, filled(SECOND_RANGE@, 0, seq![name])))
        } else {
            None
        },
        EntryText::Len { at, name, .. } => match param_named(params, name, 0) {
            None => Some(says(at, filled(LEN_NOT_A_PARAMETER@, 0, seq![name, kernel]))),
            Some(p) => if !(p.kind is ArrayRef) && !(p.kind is ArrayMut) {
                Some(says(at, filled(LEN_OF_SCALAR@, 0, seq![name])))
            } else if len_for(entries, k, name) is Some {
                Some(says(at, filled(SECOND_LEN@, 0, seq![name])))
            } else {
                None
            },
        },
    }
}

/// What is wrong with the first entry, from the `k`-th on, that is not in order.
pub open spec fn entries_say(
    entries: Seq<EntryText>,
    k: nat,
    params: Seq<ParamText>,
    kernel: Seq<char>,
) -> Option<Said>
    decreases entries.len() - k,
{
    if k >= entries.len() {
        None
    } else {
        match entry_says(entries, k, params, kernel) {
            Some(e) => Some(e),
            None => entries_say(entries, k + 1, params, kernel),
        }
    }
}

fn find_param(params: &Vec<Param<'_>>, name: &str) -> (r: Option<Kind>)
    ensures
        match (r, param_named(param_models(params@), name@, 0)) {
            (Some(k), Some(p)) => k == p.kind,
            (None, None) => true,
            _ => false,
        },
{
    let mut i: usize = 0;
    while i < params.len()
        invariant
            i <= params@.len(),
            param_named(param_models(params@), name@, 0) == param_named(
                param_models(params@),
                name@,
                i as nat,
            ),
        decreases params@.len() - i,
    {
        assert(param_models(params@)[i as int] == params@[i as int].model());
        if same(params[i].name, name) {
            return Some(params[i].kind);
        }
        i = i + 1;
    }
    None
}

fn find_range<'a>(entries: &'a Vec<GenEntry>, n: usize, name: &str) -> (r: Option<
    (&'a str, &'a str),
>)
    requires
        n <= entries@.len(),
    ensures
        match (r, range_for(entry_models(entries@), n as nat, name@)) {
            (Some((lo, hi)), Some((l, h))) => lo@ == l && hi@ == h,
            (None, None) => true,
            _ => false,
        },
    decreases n,
{
    if n == 0 {
        return None;
    }
    assert(entry_models(entries@)[n - 1] == entries@[n - 1].model());
    match find_range(entries, n - 1, name) {
        Some(r) => Some(r),
        None => match &entries[n - 1] {
            GenEntry::Range { name: k, lo, hi } => if same(k.text.as_str(), name) {
                Some((lo.as_str(), hi.as_str()))
            } else {
                None
            },
            _ => None,
        },
    }
}

fn find_len<'a>(entries: &'a Vec<GenEntry>, n: usize, name: &str) -> (r: Option<&'a str>)
    requires
        n <= entries@.len(),
    ensures
        match (r, len_for(entry_models(entries@), n as nat, name@)) {
            (Some(v), Some(m)) => v@ == m,
            (None, None) => true,
            _ => false,
        },
    decreases n,
{
    if n == 0 {
        return None;
    }
    assert(entry_models(entries@)[n - 1] == entries@[n - 1].model());
    match find_len(entries, n - 1, name) {
        Some(v) => Some(v),
        None => match &entries[n - 1] {
            GenEntry::Len { name: k, value } => if same(k.text.as_str(), name) {
                Some(value.as_str())
            } else {
                None
            },
            _ => None,
        },
    }
}

/// Every entry of `gen(..)` names a parameter, and says something new of it.
pub fn resolve_gen_entries(params: &Vec<Param<'_>>, entries: &Vec<GenEntry>, kernel: &str) -> (r:
    Result<(), Diagnostic>)
    ensures
        match (r, entries_say(entry_models(entries@), 0, param_models(params@), kernel@)) {
            (Ok(_), None) => true,
            (Err(d), Some(e)) => d.says() == e,
            _ => false,
        },
{
    let mut k: usize = 0;
    while k < entries.len()
        invariant
            k <= entries@.len(),
            entries_say(entry_models(entries@), 0, param_models(params@), kernel@) == entries_say(
                entry_models(entries@),
                k as nat,
                param_models(params@),
                kernel@,
            ),
        decreases entries@.len() - k,
    {
        assert(entry_models(entries@)[k as int] == entries@[k as int].model());
        match &entries[k] {
            GenEntry::Range { name, .. } => {
                let n = name.text.as_str();
                if find_param(params, n).is_none() {
                    return Err(Diagnostic { at: name.at, text: fill2(NOT_A_PARAMETER, n, kernel) });
                }
                if find_range(entries, k, n).is_some() {
                    return Err(Diagnostic { at: name.at, text: fill1(SECOND_RANGE, n) });
                }
            },
            GenEntry::Len { name, .. } => {
                let n = name.text.as_str();
                match find_param(params, n) {
                    None => {
                        return Err(
                            Diagnostic { at: name.at, text: fill2(LEN_NOT_A_PARAMETER, n, kernel) },
                        );
                    },
                    Some(kind) => {
                        if kind != Kind::ArrayRef && kind != Kind::ArrayMut {
                            return Err(Diagnostic { at: name.at, text: fill1(LEN_OF_SCALAR, n) });
                        }
                    },
                }
                if find_len(entries, k, n).is_some() {
                    return Err(Diagnostic { at: name.at, text: fill1(SECOND_LEN, n) });
                }
            },
        }
        k = k + 1;
    }
    Ok(())
}

// ---- draws ----------------------------------------------------------------------------------

/// How an integer is drawn: from its range, or from all values.
pub open spec fn integer_draw(ty: Seq<char>, kind: NumKind, range: Option<(Seq<char>, Seq<char>)>) -> Seq<
    char,
> {
    match range {
        Some((lo, hi)) => filled(DRAW_RANGE@, 0, seq![ty, lo, hi]),
        None => match kind {
            NumKind::U32 | NumKind::I32 => filled(DRAW_WORD@, 0, seq![ty]),
            _ => filled(DRAW_LONG@, 0, seq![ty]),
        },
    }
}

pub fn integer_draw_expr(ty: &str, kind: NumKind, range: Option<(&str, &str)>) -> (r: String)
    ensures
        r@ == integer_draw(
            ty@,
            kind,
            match range {
                Some((lo, hi)) => Some((lo@, hi@)),
                None => None,
            },
        ),
{
    match range {
        Some((lo, hi)) => fill3(DRAW_RANGE, ty, lo, hi),
        None => match kind {
            NumKind::U32 | NumKind::I32 => fill1(DRAW_WORD, ty),
            _ => fill1(DRAW_LONG, ty),
        },
    }
}

/// The statement that draws a parameter. A float needs a range.
pub open spec fn draw_text(p: ParamText, entries: Seq<EntryText>, kernel: Seq<char>) -> Result<
    Seq<char>,
    Said,
> {
    let range = range_for(entries, entries.len(), p.name);
    let ty = p.ty.text@;
    match p.kind {
        Kind::Comptime => Ok(""@),
        Kind::Scalar => match kind_of(p.ty) {
            None | Some(NumKind::Double) => Err(
                says(p.ty.at, filled(SCALAR_TYPE@, 0, seq![p.name, ty])),
            ),
            Some(NumKind::Single) => match range {
                None => Err(says(p.ty.at, filled(SCALAR_RANGE@, 0, seq![kernel, p.name]))),
                Some((lo, hi)) => Ok(filled(SCALAR_FLOAT@, 0, seq![p.name, ty, lo, hi])),
            },
            Some(k) => Ok(
                filled(SCALAR_INTEGER@, 0, seq![p.name, ty, integer_draw(ty, k, range)]),
            ),
        },
        _ => {
            let len = match len_for(entries, entries.len(), p.name) {
                Some(v) => filled(PINNED_LENGTH@, 0, seq![v]),
                None => "n"@,
            };
            match kind_of(p.ty) {
                None | Some(NumKind::Double) => Err(
                    says(p.ty.at, filled(ELEMENT_TYPE@, 0, seq![p.name, ty])),
                ),
                Some(NumKind::Single) => match range {
                    None => Err(says(p.ty.at, filled(ARRAY_RANGE@, 0, seq![kernel, p.name]))),
                    Some((lo, hi)) => Ok(filled(ARRAY_FLOAT@, 0, seq![p.name, ty, len, lo, hi])),
                },
                Some(k) => Ok(
                    filled(ARRAY_INTEGER@, 0, seq![p.name, ty, len, integer_draw(ty, k, range)]),
                ),
            }
        },
    }
}

/// The statement that draws one parameter from what `gen(..)` says of it.
pub fn build_gen_field(p: &Param<'_>, entries: &Vec<GenEntry>, kernel: &str) -> (r: Result<
    String,
    Diagnostic,
>)
    ensures
        match (r, draw_text(p.model(), entry_models(entries@), kernel@)) {
            (Ok(t), Ok(m)) => t@ == m,
            (Err(d), Err(m)) => d.says() == m,
            _ => false,
        },
{
    let ty = p.ty.text.as_str();
    let range = find_range(entries, entries.len(), p.name);
    match p.kind {
        Kind::Comptime => Ok("".to_owned()),
        Kind::Scalar => {
            let kind = match NumKind::of(p.ty) {
                None | Some(NumKind::Double) => {
                    return Err(Diagnostic { at: p.ty.at, text: fill2(SCALAR_TYPE, p.name, ty) });
                },
                Some(k) => k,
            };
            if kind == NumKind::Single {
                match range {
                    None => Err(
                        Diagnostic { at: p.ty.at, text: fill2(SCALAR_RANGE, kernel, p.name) },
                    ),
                    Some((lo, hi)) => {
                        let parts = vec![
                            p.name.to_owned(),
                            ty.to_owned(),
                            lo.to_owned(),
                            hi.to_owned(),
                        ];
                        assert(texts(parts@) =~= seq![p.name@, ty@, lo@, hi@]);
                        Ok(fill(SCALAR_FLOAT, &parts))
                    },
                }
            } else {
                let draw = integer_draw_expr(ty, kind, range);
                Ok(fill3(SCALAR_INTEGER, p.name, ty, draw.as_str()))
            }
        },
        _ => {
            let len = match find_len(entries, entries.len(), p.name) {
                Some(v) => fill1(PINNED_LENGTH, v),
                None => "n".to_owned(),
            };
            let kind = match NumKind::of(p.ty) {
                None | Some(NumKind::Double) => {
                    return Err(Diagnostic { at: p.ty.at, text: fill2(ELEMENT_TYPE, p.name, ty) });
                },
                Some(k) => k,
            };
            if kind == NumKind::Single {
                match range {
                    None => Err(
                        Diagnostic { at: p.ty.at, text: fill2(ARRAY_RANGE, kernel, p.name) },
                    ),
                    Some((lo, hi)) => {
                        let parts = vec![
                            p.name.to_owned(),
                            ty.to_owned(),
                            len,
                            lo.to_owned(),
                            hi.to_owned(),
                        ];
                        assert(texts(parts@) =~= seq![p.name@, ty@, len@, lo@, hi@]);
                        Ok(fill(ARRAY_FLOAT, &parts))
                    },
                }
            } else {
                let draw = integer_draw_expr(ty, kind, range);
                let parts = vec![p.name.to_owned(), ty.to_owned(), len, draw];
                assert(texts(parts@) =~= seq![p.name@, ty@, len@, draw@]);
                Ok(fill(ARRAY_INTEGER, &parts))
            }
        },
    }
}

// ---- a case ----------------------------------------------------------------------------------

/// How the threads of a kernel work: each for itself, or in blocks.
#[derive(Clone, Copy, Debug, PartialEq, Eq, Structural)]
pub enum Mode {
    Ordinary,
    Cooperative,
}

/// The draws of the parameters from the `i`-th on. What blocks put out is not drawn.
pub open spec fn draws(
    params: Seq<ParamText>,
    i: nat,
    entries: Seq<EntryText>,
    kernel: Seq<char>,
    mode: Mode,
) -> Result<Seq<char>, Said>
    decreases params.len() - i,
{
    if i >= params.len() {
        Ok(seq![])
    } else {
        let p = params[i as int];
        let here = if mode is Cooperative && p.kind is ArrayMut {
            Ok(filled(ARRAY_OUTPUT@, 0, seq![p.name, p.ty.text@]))
        } else {
            draw_text(p, entries, kernel)
        };
        match here {
            Err(e) => Err(e),
            Ok(a) => match draws(params, i + 1, entries, kernel, mode) {
                Err(e) => Err(e),
                Ok(b) => Ok(a + b),
            },
        }
    }
}

fn build_draws(params: &Vec<Param<'_>>, entries: &Vec<GenEntry>, kernel: &str, mode: Mode) -> (r:
    Result<String, Diagnostic>)
    ensures
        match (r, draws(param_models(params@), 0, entry_models(entries@), kernel@, mode)) {
            (Ok(t), Ok(m)) => t@ == m,
            (Err(d), Err(m)) => d.says() == m,
            _ => false,
        },
{
    let mut out = String::new();
    let mut i: usize = 0;
    assert(out@ =~= seq![]);
    while i < params.len()
        invariant
            i <= params@.len(),
            match (
                draws(param_models(params@), i as nat, entry_models(entries@), kernel@, mode),
                draws(param_models(params@), 0, entry_models(entries@), kernel@, mode),
            ) {
                (Ok(rest), Ok(all)) => all == out@ + rest,
                (Err(a), Err(b)) => a == b,
                _ => false,
            },
        decreases params@.len() - i,
    {
        let p = &params[i];
        assert(param_models(params@)[i as int] == p.model());
        let ghost before = out@;
        let here = if mode == Mode::Cooperative && p.kind == Kind::ArrayMut {
            fill2(ARRAY_OUTPUT, p.name, p.ty.text.as_str())
        } else {
            build_gen_field(p, entries, kernel)?
        };
        out.append(here.as_str());
        proof {
            if let Ok(rest) = draws(
                param_models(params@),
                (i + 1) as nat,
                entry_models(entries@),
                kernel@,
                mode,
            ) {
                assert(before + (here@ + rest) =~= (before + here@) + rest);
            }
        }
        i = i + 1;
    }
    assert(out@ =~= out@ + seq![]);
    Ok(out)
}

/// What the comparison of an output is called.
pub open spec fn comparer(kind: Option<NumKind>, mode: Mode) -> Option<Seq<char>> {
    match kind {
        Some(NumKind::Single) => Some("f32"@),
        Some(NumKind::U32) => Some("u32"@),
        Some(NumKind::Double) => if mode is Cooperative {
            Some("f64"@)
        } else {
            None
        },
        _ => None,
    }
}

fn compare_with(kind: Option<NumKind>, mode: Mode) -> (r: Option<&'static str>)
    ensures
        match (r, comparer(kind, mode)) {
            (Some(t), Some(m)) => t@ == m,
            (None, None) => true,
            _ => false,
        },
{
    match kind {
        Some(NumKind::Single) => Some("f32"),
        Some(NumKind::U32) => Some("u32"),
        Some(NumKind::Double) => if mode == Mode::Cooperative {
            Some("f64")
        } else {
            None
        },
        _ => None,
    }
}

/// The first output, from the `i`-th parameter on, that cannot be compared.
pub open spec fn not_compared(params: Seq<ParamText>, i: nat, mode: Mode) -> Option<Said>
    decreases params.len() - i,
{
    if i >= params.len() {
        None
    } else {
        let p = params[i as int];
        if p.kind is ArrayMut && comparer(kind_of(p.ty), mode) is None {
            Some(
                says(
                    p.ty.at,
                    filled(
                        if mode is Cooperative {
                            PARTIAL_NOT_COMPARED@
                        } else {
                            NOT_COMPARED@
                        },
                        0,
                        seq![p.name, p.ty.text@],
                    ),
                ),
            )
        } else {
            not_compared(params, i + 1, mode)
        }
    }
}

fn check_compared(params: &Vec<Param<'_>>, mode: Mode) -> (r: Result<(), Diagnostic>)
    ensures
        match (r, not_compared(param_models(params@), 0, mode)) {
            (Ok(_), None) => true,
            (Err(d), Some(e)) => d.says() == e,
            _ => false,
        },
{
    let mut i: usize = 0;
    while i < params.len()
        invariant
            i <= params@.len(),
            not_compared(param_models(params@), 0, mode) == not_compared(
                param_models(params@),
                i as nat,
                mode,
            ),
        decreases params@.len() - i,
    {
        let p = &params[i];
        assert(param_models(params@)[i as int] == p.model());
        if p.kind == Kind::ArrayMut && compare_with(NumKind::of(p.ty), mode).is_none() {
            let text = if mode == Mode::Cooperative {
                PARTIAL_NOT_COMPARED
            } else {
                NOT_COMPARED
            };
            return Err(
                Diagnostic { at: p.ty.at, text: fill2(text, p.name, p.ty.text.as_str()) },
            );
        }
        i = i + 1;
    }
    Ok(())
}

/// The parts of a case that have a piece for every parameter.
#[derive(Clone, Copy, Debug, PartialEq, Eq, Structural)]
pub enum Part {
    /// The type of the drawn value.
    Owned,
    /// What the check of the assumes gets.
    Check,
    Name,
    /// A copy of an output for the twin.
    Copy,
    /// What the twin gets.
    Reference,
    Upload,
    Launch,
    ReadBack,
    Compare,
}

pub open spec fn part_text(p: ParamText, part: Part, mode: Mode) -> Seq<char> {
    let ty = p.ty.text@;
    match (part, p.kind) {
        (Part::Launch, Kind::Comptime) => p.pinned + ","@,
        (_, Kind::Comptime) => ""@,
        (Part::Owned, Kind::Scalar) => ty + ","@,
        (Part::Owned, _) => filled(VEC_TYPE@, 0, seq![ty]),
        (Part::Check, Kind::Scalar) => p.name + ","@,
        (Part::Check, _) => "&"@ + p.name + ","@,
        (Part::Name, _) => p.name + ","@,
        (Part::Copy, Kind::ArrayMut) => filled(COPY_OF_OUTPUT@, 0, seq![p.name, ty, pasted(p.name)]),
        (Part::Copy, _) => ""@,
        (Part::Reference, Kind::Scalar) => p.name + ","@,
        (Part::Reference, Kind::ArrayRef) => "&"@ + p.name + ","@,
        (Part::Reference, _) => "&mut __vericl_"@ + pasted(p.name) + "_ref,"@,
        (Part::Upload, Kind::Scalar) => ""@,
        (Part::Upload, _) => filled(UPLOAD@, 0, seq![p.name, ty, pasted(p.name)]),
        (Part::Launch, Kind::Scalar) => p.name + ","@,
        (Part::Launch, Kind::ArrayRef) => filled(LAUNCH_INPUT@, 0, seq![p.name, pasted(p.name)]) + ","@,
        (Part::Launch, _) => filled(LAUNCH_OUTPUT@, 0, seq![p.name, pasted(p.name)]) + ","@,
        (Part::ReadBack, Kind::ArrayMut) => filled(READ_BACK@, 0, seq![p.name, ty, pasted(p.name)]),
        (Part::ReadBack, _) => ""@,
        (Part::Compare, Kind::ArrayMut) => match comparer(kind_of(p.ty), mode) {
            Some(with) => filled(COMPARED@, 0, seq![p.name, with, pasted(p.name)]),
            None => ""@,
        },
        (Part::Compare, _) => ""@,
    }
}

fn build_part(p: &Param<'_>, part: Part, mode: Mode) -> (r: String)
    ensures
        r@ == part_text(p.model(), part, mode),
{
    let ty = p.ty.text.as_str();
    match (part, p.kind) {
        (Part::Launch, Kind::Comptime) => cat2(p.pinned, ","),
        (_, Kind::Comptime) => "".to_owned(),
        (Part::Owned, Kind::Scalar) => cat2(ty, ","),
        (Part::Owned, _) => fill1(VEC_TYPE, ty),
        (Part::Check, Kind::Scalar) => cat2(p.name, ","),
        (Part::Check, _) => cat3("&", p.name, ","),
        (Part::Name, _) => cat2(p.name, ","),
        (Part::Copy, Kind::ArrayMut) => fill3(COPY_OF_OUTPUT, p.name, ty, paste(p.name).as_str()),
        (Part::Copy, _) => "".to_owned(),
        (Part::Reference, Kind::Scalar) => cat2(p.name, ","),
        (Part::Reference, Kind::ArrayRef) => cat3("&", p.name, ","),
        (Part::Reference, _) => cat3("&mut __vericl_", paste(p.name).as_str(), "_ref,"),
        (Part::Upload, Kind::Scalar) => "".to_owned(),
        (Part::Upload, _) => fill3(UPLOAD, p.name, ty, paste(p.name).as_str()),
        (Part::Launch, Kind::Scalar) => cat2(p.name, ","),
        (Part::Launch, Kind::ArrayRef) => cat2(fill2(LAUNCH_INPUT, p.name, paste(p.name).as_str()).as_str(), ","),
        (Part::Launch, _) => cat2(fill2(LAUNCH_OUTPUT, p.name, paste(p.name).as_str()).as_str(), ","),
        (Part::ReadBack, Kind::ArrayMut) => fill3(READ_BACK, p.name, ty, paste(p.name).as_str()),
        (Part::ReadBack, _) => "".to_owned(),
        (Part::Compare, Kind::ArrayMut) => match compare_with(NumKind::of(p.ty), mode) {
            Some(with) => fill3(COMPARED, p.name, with, paste(p.name).as_str()),
            None => "".to_owned(),
        },
        (Part::Compare, _) => "".to_owned(),
    }
}

/// The pieces of the parameters from the `i`-th on.
pub open spec fn parts_text(params: Seq<ParamText>, i: nat, part: Part, mode: Mode) -> Seq<char>
    decreases params.len() - i,
{
    if i >= params.len() {
        seq![]
    } else {
        part_text(params[i as int], part, mode) + parts_text(params, i + 1, part, mode)
    }
}

fn build_parts(params: &Vec<Param<'_>>, part: Part, mode: Mode) -> (r: String)
    ensures
        r@ == parts_text(param_models(params@), 0, part, mode),
{
    let mut out = String::new();
    let mut i: usize = 0;
    assert(out@ + parts_text(param_models(params@), 0, part, mode) =~= parts_text(
        param_models(params@),
        0,
        part,
        mode,
    ));
    while i < params.len()
        invariant
            i <= params@.len(),
            out@ + parts_text(param_models(params@), i as nat, part, mode) == parts_text(
                param_models(params@),
                0,
                part,
                mode,
            ),
        decreases params@.len() - i,
    {
        assert(param_models(params@)[i as int] == params@[i as int].model());
        let ghost before = out@;
        let here = build_part(&params[i], part, mode);
        out.append(here.as_str());
        proof {
            lemma_next(before, here@, parts_text(param_models(params@), (i + 1) as nat, part, mode), before + here@);
        }
        i = i + 1;
    }
    assert(out@ =~= out@ + seq![]);
    out
}

/// What the launch is instantiated with: the types of a generic kernel, and the runtime.
pub open spec fn turbofish(generics: Seq<char>) -> Seq<char> {
    "<"@ + generics + " R>"@
}

/// The code that draws inputs for a kernel, runs it and its twin on them, and compares
/// what they put out; or the first thing that stands in the way. `cube_dim` and
/// `generics`, every type with a comma behind it, are for a cooperative kernel.
pub open spec fn conformance(
    params: Seq<ParamText>,
    entries: Seq<EntryText>,
    kernel: Seq<char>,
    mode: Mode,
    cube_dim: Seq<char>,
    generics: Seq<char>,
) -> Result<Seq<char>, Said> {
    match entries_say(entries, 0, params, kernel) {
        Some(e) => Err(e),
        None => match draws(params, 0, entries, kernel, mode) {
            Err(e) => Err(e),
            Ok(drawn) => match not_compared(params, 0, mode) {
                Some(e) => Err(e),
                None => {
                    let part = |x: Part| parts_text(params, 0, x, mode);
                    Ok(
                        filled(
                            if mode is Cooperative {
                                COOPERATIVE_GENERATE_CASE@
                            } else {
                                GENERATE_CASE@
                            },
                            0,
                            seq![
                                part(Part::Owned),
                                drawn,
                                listed(part(Part::Check)),
                                part(Part::Name),
                                literal(kernel),
                            ],
                        ) + " "@ + filled(
                            if mode is Cooperative {
                                COOPERATIVE_CONFORMANCE_CASE@
                            } else {
                                CONFORMANCE_CASE@
                            },
                            0,
                            seq![
                                part(Part::Name),
                                part(Part::Copy),
                                part(Part::Reference),
                                part(Part::Upload),
                                kernel,
                                part(Part::Launch),
                                part(Part::ReadBack),
                                part(Part::Compare),
                                cube_dim,
                                literal(kernel),
                                turbofish(generics),
                            ],
                        ),
                    )
                },
            },
        },
    }
}

/// The code that compares a kernel with its twin.
pub fn build_conformance_items(
    params: &Vec<Param<'_>>,
    entries: &Vec<GenEntry>,
    kernel: &str,
    mode: Mode,
    cube_dim: &str,
    generics: &str,
) -> (r: Result<String, Diagnostic>)
    ensures
        match (
            r,
            conformance(
                param_models(params@),
                entry_models(entries@),
                kernel@,
                mode,
                cube_dim@,
                generics@,
            ),
        ) {
            (Ok(t), Ok(m)) => t@ == m,
            (Err(d), Err(m)) => d.says() == m,
            _ => false,
        },
{
    resolve_gen_entries(params, entries, kernel)?;
    let drawn = build_draws(params, entries, kernel, mode)?;
    check_compared(params, mode)?;
    let name = build_parts(params, Part::Name, mode);
    let first = vec![
        build_parts(params, Part::Owned, mode),
        drawn,
        list(build_parts(params, Part::Check, mode).as_str()),
        name.clone(),
        quote(kernel),
    ];
    let ghost ms = param_models(params@);
    assert(texts(first@) =~= seq![
        parts_text(ms, 0, Part::Owned, mode),
        drawn@,
        listed(parts_text(ms, 0, Part::Check, mode)),
        parts_text(ms, 0, Part::Name, mode),
        literal(kernel@),
    ]);
    let second = vec![
        name,
        build_parts(params, Part::Copy, mode),
        build_parts(params, Part::Reference, mode),
        build_parts(params, Part::Upload, mode),
        kernel.to_owned(),
        build_parts(params, Part::Launch, mode),
        build_parts(params, Part::ReadBack, mode),
        build_parts(params, Part::Compare, mode),
        cube_dim.to_owned(),
        quote(kernel),
        cat3("<", generics, " R>"),
    ];
    assert(texts(second@) =~= seq![
        parts_text(ms, 0, Part::Name, mode),
        parts_text(ms, 0, Part::Copy, mode),
        parts_text(ms, 0, Part::Reference, mode),
        parts_text(ms, 0, Part::Upload, mode),
        kernel@,
        parts_text(ms, 0, Part::Launch, mode),
        parts_text(ms, 0, Part::ReadBack, mode),
        parts_text(ms, 0, Part::Compare, mode),
        cube_dim@,
        literal(kernel@),
        turbofish(generics@),
    ]);
    let (generate, compare) = if mode == Mode::Cooperative {
        (COOPERATIVE_GENERATE_CASE, COOPERATIVE_CONFORMANCE_CASE)
    } else {
        (GENERATE_CASE, CONFORMANCE_CASE)
    };
    Ok(cat3(fill(generate, &first).as_str(), " ", fill(compare, &second).as_str()))
}

// ---- laws ---------------------------------------------------------------------------------------

pub open spec fn entry_name(e: EntryText) -> Seq<char> {
    match e {
        EntryText::Range { name, .. } => name,
        EntryText::Len { name, .. } => name,
    }
}

proof fn lemma_entry_in_order(
    entries: Seq<EntryText>,
    k: nat,
    j: nat,
    params: Seq<ParamText>,
    kernel: Seq<char>,
)
    requires
        k <= j < entries.len(),
        entries_say(entries, k, params, kernel) is None,
    ensures
        entry_says(entries, j, params, kernel) is None,
    decreases j - k,
{
    if k < j {
        lemma_entry_in_order(entries, k + 1, j, params, kernel);
    }
}

proof fn lemma_range_found(entries: Seq<EntryText>, n: nat, i: int)
    requires
        0 <= i < n <= entries.len(),
        entries[i] is Range,
    ensures
        range_for(entries, n, entry_name(entries[i])) is Some,
    decreases n,
{
    if i < n - 1 {
        lemma_range_found(entries, (n - 1) as nat, i);
    }
}

proof fn lemma_len_found(entries: Seq<EntryText>, n: nat, i: int)
    requires
        0 <= i < n <= entries.len(),
        entries[i] is Len,
    ensures
        len_for(entries, n, entry_name(entries[i])) is Some,
    decreases n,
{
    if i < n - 1 {
        lemma_len_found(entries, (n - 1) as nat, i);
    }
}

/// Where code is generated, every entry of `gen(..)` names a parameter, a length is given
/// to arrays only, and no two entries say the same of one parameter.
pub proof fn law_entries_are_about_parameters(
    params: Seq<ParamText>,
    entries: Seq<EntryText>,
    kernel: Seq<char>,
    mode: Mode,
    cube_dim: Seq<char>,
    generics: Seq<char>,
    i: int,
    j: int,
)
    requires
        conformance(params, entries, kernel, mode, cube_dim, generics) is Ok,
        0 <= i < j < entries.len(),
    ensures
        param_named(params, entry_name(entries[i]), 0) is Some,
        param_named(params, entry_name(entries[j]), 0) is Some,
        entries[j] is Len ==> {
            let p = param_named(params, entry_name(entries[j]), 0)->0;
            p.kind is ArrayRef || p.kind is ArrayMut
        },
        (entries[i] is Range == entries[j] is Range) ==> entry_name(entries[i]) != entry_name(
            entries[j],
        ),
{
    lemma_entry_in_order(entries, 0, i as nat, params, kernel);
    lemma_entry_in_order(entries, 0, j as nat, params, kernel);
    if entries[i] is Range {
        lemma_range_found(entries, j as nat, i);
    } else {
        lemma_len_found(entries, j as nat, i);
    }
}

proof fn lemma_drawn(
    params: Seq<ParamText>,
    i: nat,
    j: nat,
    entries: Seq<EntryText>,
    kernel: Seq<char>,
    mode: Mode,
)
    requires
        i <= j < params.len(),
        draws(params, i, entries, kernel, mode) is Ok,
        !(mode is Cooperative && params[j as int].kind is ArrayMut),
    ensures
        draw_text(params[j as int], entries, kernel) is Ok,
    decreases j - i,
{
    if i < j {
        lemma_drawn(params, i + 1, j, entries, kernel, mode);
    }
}

/// No float is drawn without a range: where code is generated, `gen(..)` gives one to every
/// 32-bit float that is drawn.
pub proof fn law_drawn_floats_have_a_range(
    params: Seq<ParamText>,
    entries: Seq<EntryText>,
    kernel: Seq<char>,
    mode: Mode,
    cube_dim: Seq<char>,
    generics: Seq<char>,
    i: int,
)
    requires
        conformance(params, entries, kernel, mode, cube_dim, generics) is Ok,
        0 <= i < params.len(),
        !(params[i].kind is Comptime),
        !(mode is Cooperative && params[i].kind is ArrayMut),
        kind_of(params[i].ty) == Some(NumKind::Single),
    ensures
        range_for(entries, entries.len(), params[i].name) is Some,
{
    lemma_drawn(params, 0, i as nat, entries, kernel, mode);
}

} // verus!
