//! A model of the scripting-language statement tree that the backend
//! searches for uses of a global function. The parser itself lives outside
//! the library; its statement tree is converted into this one, which keeps
//! exactly what the search reads: call names with the byte range of their
//! name token, and the nested blocks the search descends into.

use vstd::prelude::*;

use crate::utils::str_eq;

verus! {

/// One statement, as the search sees it.
#[derive(Debug)]
pub enum LuauStmt {
    /// A call statement whose prefix is a plain name: the name and the byte
    /// range of its name token.
    Call { name: String, start: usize, end: usize },
    /// A statement with a nested block the search descends into: a plain
    /// block, a function declaration's body, a loop's or a conditional's
    /// body.
    Block(Vec<LuauStmt>),
    /// Any other statement; the search passes over it.
    Other,
}

/// The byte ranges at which a statement calls the named global function, in
/// depth-first order.
pub open spec fn stmt_usages(s: LuauStmt, name: Seq<char>) -> Seq<(usize, usize)>
    decreases s,
{
    match s {
        LuauStmt::Call { name: n, start, end } => if n@ == name {
            seq![(start, end)]
        } else {
            Seq::empty()
        },
        LuauStmt::Block(b) => block_usages(b@, name),
        LuauStmt::Other => Seq::empty(),
    }
}

/// The byte ranges at which the statements of a block call the named global
/// function, in depth-first order.
pub open spec fn block_usages(ss: Seq<LuauStmt>, name: Seq<char>) -> Seq<(usize, usize)>
    decreases ss,
{
    if ss.len() == 0 {
        Seq::empty()
    } else {
        block_usages(ss.drop_last(), name) + stmt_usages(ss.last(), name)
    }
}

/// Finds every call of the named global function in a statement block: the
/// byte range of each matching call's name token, in depth-first order.
pub fn luau_find_global_function_usage(block: &Vec<LuauStmt>, function_to_find: &str) -> (r: Vec<
    (usize, usize),
>)
    ensures
        r@ == block_usages(block@, function_to_find@),
    decreases block@,
{
    let mut found: Vec<(usize, usize)> = Vec::new();
    let n = block.len();
    let mut i: usize = 0;
    while i < n
        invariant
            i <= n,
            n == block@.len(),
            found@ == block_usages(block@.take(i as int), function_to_find@),
        decreases n - i,
    {
        let ghost pre = found@;
        let ghost stmt = block@[i as int];
        match &block[i] {
            LuauStmt::Call { name, start, end } => {
                if str_eq(name.as_str(), function_to_find) {
                    found.push((*start, *end));
                    proof {
                        assert(found@ =~= pre + stmt_usages(stmt, function_to_find@));
                    }
                } else {
                    proof {
                        assert(found@ =~= pre + stmt_usages(stmt, function_to_find@));
                    }
                }
            },
            LuauStmt::Block(b) => {
                proof {
                    assert(decreases_to!(block@ => stmt));
                    assert(decreases_to!(stmt => *b));
                    assert(decreases_to!(*b => b@));
                }
                let mut sub = luau_find_global_function_usage(b, function_to_find);
                found.append(&mut sub);
                proof {
                    assert(found@ =~= pre + stmt_usages(stmt, function_to_find@));
                }
            },
            LuauStmt::Other => {
                proof {
                    assert(found@ =~= pre + stmt_usages(stmt, function_to_find@));
                }
            },
        }
        proof {
            assert(block@.take(i as int + 1).drop_last() =~= block@.take(i as int));
            assert(block@.take(i as int + 1).last() == stmt);
        }
        i += 1;
    }
    proof {
        assert(block@.take(n as int) =~= block@);
    }
    found
}

} // verus!
