//! The prelude types generated code names in the Go standard library
//! package.

use vstd::prelude::*;
use crate::text::{owned, push_char, seq_join, str_eq, views_of, join};

verus! {

/// A generic type the prelude provides.
#[derive(Clone, Copy, PartialEq, Eq, Structural)]
pub enum PreludeType {
    Option,
    Result,
    Partial,
    Range,
    RangeInclusive,
    RangeFrom,
    RangeTo,
    RangeToInclusive,
    PanicValue,
}

/// The Go name of a prelude type.
pub open spec fn prelude_go_name(t: PreludeType) -> Seq<char> {
    match t {
        PreludeType::Option => "Option"@,
        PreludeType::Result => "Result"@,
        PreludeType::Partial => "Partial"@,
        PreludeType::Range => "Range"@,
        PreludeType::RangeInclusive => "RangeInclusive"@,
        PreludeType::RangeFrom => "RangeFrom"@,
        PreludeType::RangeTo => "RangeTo"@,
        PreludeType::RangeToInclusive => "RangeToInclusive"@,
        PreludeType::PanicValue => "PanicValue"@,
    }
}

/// The type written in Go: qualified by the prelude package, with its type
/// arguments when it has any.
pub open spec fn prelude_type_text(t: PreludeType, args: Seq<Seq<char>>) -> Seq<char> {
    let base = "lisette."@ + prelude_go_name(t);
    if args.len() == 0 {
        base
    } else {
        base + seq!['['] + seq_join(args, ", "@) + seq![']']
    }
}

impl PreludeType {
    /// Every prelude type, in declaration order.
    pub fn all() -> (r: Vec<PreludeType>)
        ensures
            r@ == seq![
                PreludeType::Option,
                PreludeType::Result,
                PreludeType::Partial,
                PreludeType::Range,
                PreludeType::RangeInclusive,
                PreludeType::RangeFrom,
                PreludeType::RangeTo,
                PreludeType::RangeToInclusive,
                PreludeType::PanicValue,
            ],
    {
        let mut r = Vec::new();
        r.push(PreludeType::Option);
        r.push(PreludeType::Result);
        r.push(PreludeType::Partial);
        r.push(PreludeType::Range);
        r.push(PreludeType::RangeInclusive);
        r.push(PreludeType::RangeFrom);
        r.push(PreludeType::RangeTo);
        r.push(PreludeType::RangeToInclusive);
        r.push(PreludeType::PanicValue);
        r
    }

    /// The prelude type whose Go name is `name`.
    pub fn from_name(name: &str) -> (r: Option<Self>)
        ensures
            match r {
                Some(t) => prelude_go_name(t) == name@,
                None => forall|t: PreludeType| prelude_go_name(t) != name@,
            },
    {
        let all = Self::all();
        let mut i: usize = 0;
        while i < all.len()
            invariant
                i <= all@.len(),
                all@.len() == 9,
                all@ == seq![
                    PreludeType::Option,
                    PreludeType::Result,
                    PreludeType::Partial,
                    PreludeType::Range,
                    PreludeType::RangeInclusive,
                    PreludeType::RangeFrom,
                    PreludeType::RangeTo,
                    PreludeType::RangeToInclusive,
                    PreludeType::PanicValue,
                ],
                forall|j: int| 0 <= j < i ==> prelude_go_name(#[trigger] all@[j]) != name@,
            decreases all.len() - i,
        {
            if str_eq(all[i].go_name(), name) {
                return Some(all[i]);
            }
            i = i + 1;
        }
        assert forall|t: PreludeType| prelude_go_name(t) != name@ by {
            match t {
                PreludeType::Option => assert(all@[0] == t),
                PreludeType::Result => assert(all@[1] == t),
                PreludeType::Partial => assert(all@[2] == t),
                PreludeType::Range => assert(all@[3] == t),
                PreludeType::RangeInclusive => assert(all@[4] == t),
                PreludeType::RangeFrom => assert(all@[5] == t),
                PreludeType::RangeTo => assert(all@[6] == t),
                PreludeType::RangeToInclusive => assert(all@[7] == t),
                PreludeType::PanicValue => assert(all@[8] == t),
            }
        }
        None
    }

    /// The Go spelling of this type with the given type arguments.
    pub fn emit_type(&self, type_args: &Vec<String>) -> (r: String)
        ensures
            r@ == prelude_type_text(*self, views_of(type_args@)),
    {
        let mut r = owned("lisette.");
        r.append(self.go_name());
        if type_args.len() > 0 {
            push_char(&mut r, '[');
            r.append(join(type_args, ", ").as_str());
            push_char(&mut r, ']');
        }
        r
    }

    pub fn go_name(&self) -> (r: &'static str)
        ensures
            r@ == prelude_go_name(*self),
    {
        match self {
            PreludeType::Option => "Option",
            PreludeType::Result => "Result",
            PreludeType::Partial => "Partial",
            PreludeType::Range => "Range",
            PreludeType::RangeInclusive => "RangeInclusive",
            PreludeType::RangeFrom => "RangeFrom",
            PreludeType::RangeTo => "RangeTo",
            PreludeType::RangeToInclusive => "RangeToInclusive",
            PreludeType::PanicValue => "PanicValue",
        }
    }
}

} // verus!
