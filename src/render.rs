use vstd::prelude::*;
use crate::model::{Type, DatatypeArg};

verus! {

/// The decimal digit `d` (below ten) as text.
pub open spec fn digit_text(d: nat) -> Seq<char> {
    if d == 0 { "0"@ }
    else if d == 1 { "1"@ }
    else if d == 2 { "2"@ }
    else if d == 3 { "3"@ }
    else if d == 4 { "4"@ }
    else if d == 5 { "5"@ }
    else if d == 6 { "6"@ }
    else if d == 7 { "7"@ }
    else if d == 8 { "8"@ }
    else { "9"@ }
}

/// The decimal notation of `n`, without leading zeros.
pub open spec fn decimal_text(n: nat) -> Seq<char>
    decreases n,
{
    if n < 10 {
        digit_text(n)
    } else {
        decimal_text(n / 10) + digit_text(n % 10)
    }
}

/// The canonical text of a type.
pub open spec fn type_text(t: Type) -> Seq<char>
    decreases t,
{
    match t {
        Type::Bool => "bool"@,
        Type::U8 => "u8"@,
        Type::U16 => "u16"@,
        Type::U32 => "u32"@,
        Type::U64 => "u64"@,
        Type::U128 => "u128"@,
        Type::U256 => "u256"@,
        Type::Address => "address"@,
        Type::Signer => "signer"@,
        Type::Any => "_"@,
        Type::Vector(inner) => "vector<"@ + type_text(*inner) + ">"@,
        Type::Reference(is_mut, inner) => if is_mut {
            "&mut "@ + type_text(*inner)
        } else {
            "&"@ + type_text(*inner)
        },
        Type::Tuple(ts) => "("@ + list_text(ts@) + ")"@,
        Type::Fun(args, ret) => "fun("@ + list_text(args@) + ") -> "@ + type_text(*ret),
        Type::TypeParameter(idx) => "T"@ + decimal_text(idx as nat),
        Type::NamedTypeParameter(name) => name@,
        Type::Datatype(dt) => if dt.type_arguments@.len() == 0 {
            dt.name@
        } else {
            dt.name@ + "<"@ + args_text(dt.type_arguments@) + ">"@
        },
    }
}

/// The texts of the types in `ts`, separated by `", "`.
pub open spec fn list_text(ts: Seq<Type>) -> Seq<char>
    decreases ts,
{
    if ts.len() == 0 {
        Seq::empty()
    } else if ts.len() == 1 {
        type_text(ts[0])
    } else {
        list_text(ts.subrange(0, ts.len() - 1)) + ", "@ + type_text(ts[ts.len() - 1])
    }
}

/// The texts of the arguments' types, separated by `", "`; phantom flags are not shown.
pub open spec fn args_text(args: Seq<DatatypeArg>) -> Seq<char>
    decreases args,
{
    if args.len() == 0 {
        Seq::empty()
    } else if args.len() == 1 {
        type_text(args[0].argument)
    } else {
        args_text(args.subrange(0, args.len() - 1)) + ", "@ + type_text(
            args[args.len() - 1].argument,
        )
    }
}

fn digit_str(d: u16) -> (r: &'static str)
    requires
        d < 10,
    ensures
        r@ == digit_text(d as nat),
{
    if d == 0 { "0" }
    else if d == 1 { "1" }
    else if d == 2 { "2" }
    else if d == 3 { "3" }
    else if d == 4 { "4" }
    else if d == 5 { "5" }
    else if d == 6 { "6" }
    else if d == 7 { "7" }
    else if d == 8 { "8" }
    else { "9" }
}

fn push_decimal(out: &mut String, n: u16)
    ensures
        final(out)@ == old(out)@ + decimal_text(n as nat),
    decreases n,
{
    if n >= 10 {
        push_decimal(out, n / 10);
    }
    out.append(digit_str(n % 10));
    proof {
        if n >= 10 {
            assert(final(out)@ =~= old(out)@ + decimal_text(n as nat));
        }
    }
}

/// Appends the texts of `ts`, separated by `", "`.
pub(crate) fn push_type_list(out: &mut String, ts: &Vec<Type>)
    ensures
        final(out)@ == old(out)@ + list_text(ts@),
    decreases ts,
{
    let mut i: usize = 0;
    while i < ts.len()
        invariant
            i <= ts@.len(),
            out@ == old(out)@ + list_text(ts@.subrange(0, i as int)),
        decreases ts@.len() - i,
    {
        if i > 0 {
            out.append(", ");
        }
        let s = type_to_string(&ts[i]);
        out.append(s.as_str());
        proof {
            let next = ts@.subrange(0, i + 1);
            assert(next.subrange(0, i as int) =~= ts@.subrange(0, i as int));
            assert(next[i as int] == ts@[i as int]);
        }
        i = i + 1;
    }
    assert(ts@.subrange(0, ts@.len() as int) =~= ts@);
}

/// Appends the texts of the arguments' types, separated by `", "`.
fn push_args(out: &mut String, args: &Vec<DatatypeArg>)
    ensures
        final(out)@ == old(out)@ + args_text(args@),
    decreases args,
{
    let mut i: usize = 0;
    while i < args.len()
        invariant
            i <= args@.len(),
            out@ == old(out)@ + args_text(args@.subrange(0, i as int)),
        decreases args@.len() - i,
    {
        if i > 0 {
            out.append(", ");
        }
        let s = type_to_string(&args[i].argument);
        out.append(s.as_str());
        proof {
            let next = args@.subrange(0, i + 1);
            assert(next.subrange(0, i as int) =~= args@.subrange(0, i as int));
            assert(next[i as int] == args@[i as int]);
        }
        i = i + 1;
    }
    assert(args@.subrange(0, args@.len() as int) =~= args@);
}

/// Renders a type as its canonical text.
pub fn type_to_string(t: &Type) -> (r: String)
    ensures
        r@ == type_text(*t),
    decreases t,
{
    match t {
        Type::Bool => String::from_str("bool"),
        Type::U8 => String::from_str("u8"),
        Type::U16 => String::from_str("u16"),
        Type::U32 => String::from_str("u32"),
        Type::U64 => String::from_str("u64"),
        Type::U128 => String::from_str("u128"),
        Type::U256 => String::from_str("u256"),
        Type::Address => String::from_str("address"),
        Type::Signer => String::from_str("signer"),
        Type::Any => String::from_str("_"),
        Type::Vector(inner) => {
            let mut out = String::from_str("vector<");
            let s = type_to_string(inner);
            out.append(s.as_str());
            out.append(">");
            out
        },
        Type::Reference(is_mut, inner) => {
            let mut out = if *is_mut {
                String::from_str("&mut ")
            } else {
                String::from_str("&")
            };
            let s = type_to_string(inner);
            out.append(s.as_str());
            out
        },
        Type::Tuple(ts) => {
            let mut out = String::from_str("(");
            push_type_list(&mut out, ts);
            out.append(")");
            out
        },
        Type::Fun(args, ret) => {
            let mut out = String::from_str("fun(");
            push_type_list(&mut out, args);
            out.append(") -> ");
            let s = type_to_string(ret);
            out.append(s.as_str());
            out
        },
        Type::TypeParameter(idx) => {
            let mut out = String::from_str("T");
            push_decimal(&mut out, *idx);
            out
        },
        Type::NamedTypeParameter(name) => name.clone(),
        Type::Datatype(dt) => {
            let mut out = dt.name.clone();
            if dt.type_arguments.len() > 0 {
                out.append("<");
                push_args(&mut out, &dt.type_arguments);
                out.append(">");
            }
            out
        },
    }
}

} // verus!
