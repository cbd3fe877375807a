//! Command-line options.
use vstd::prelude::*;
use vstd::string::StringExecFns;

use crate::order::ids_of;

verus! {

/// The argument that follows the first occurrence of `key` that has one.
pub open spec fn value_after(args: Seq<Seq<char>>, key: Seq<char>) -> Option<Seq<char>>
    decreases args.len(),
{
    if args.len() < 2 {
        None
    } else if args[0] == key {
        Some(args[1])
    } else {
        value_after(args.drop_first(), key)
    }
}

/// The value given to option `key`, if any.
pub fn arg(args: &Vec<String>, key: &str) -> (r: Option<String>)
    ensures
        r matches Some(v) ==> value_after(ids_of(args@), key@) == Some(v@),
        r is None ==> value_after(ids_of(args@), key@) is None,
{
    let k = String::from_str(key);
    let ghost a = ids_of(args@);
    let mut i: usize = 0;
    assert(a.subrange(0, a.len() as int) =~= a);
    while i < args.len() && i + 1 < args.len()
        invariant
            a == ids_of(args@),
            k@ == key@,
            i <= args@.len(),
            value_after(a, key@) == value_after(a.subrange(i as int, a.len() as int), key@),
        decreases args@.len() - i,
    {
        let ghost rest = a.subrange(i as int, a.len() as int);
        assert(rest.drop_first() =~= a.subrange(i + 1, a.len() as int));
        if args[i] == k {
            assert(rest[0] == a[i as int]);
            return Some(args[i + 1].clone());
        }
        i = i + 1;
    }
    None
}

/// The option's value, else the value of its environment variable.
pub fn arg_or_env(args: &Vec<String>, key: &str, env_value: String) -> (r: String)
    ensures
        value_after(ids_of(args@), key@) matches Some(v) ==> r@ == v,
        value_after(ids_of(args@), key@) is None ==> r == env_value,
{
    match arg(args, key) {
        Some(v) => v,
        None => env_value,
    }
}

/// The catalog root: the given path, or the current directory when none is.
pub fn dir_or_current(path: String) -> (r: String)
    ensures
        path@.len() == 0 ==> r@ == seq!['.'],
        path@.len() > 0 ==> r == path,
{
    if path.as_str().is_empty() {
        proof {
            reveal_strlit(".");
        }
        String::from_str(".")
    } else {
        path
    }
}

} // verus!
