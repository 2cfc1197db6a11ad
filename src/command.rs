//! Reading the arguments of requests: expiry options of SET and the echo
//! of PING.

use crate::codec::{parse_unsigned, parse_unsigned_max};
use crate::protocol::{strings_view, CmdError};
use vstd::prelude::*;

verus! {

broadcast use vstd::string::group_string_axioms;

/// `t` is the unit `EX` (seconds), in any letter case.
pub open spec fn is_ex(t: Seq<char>) -> bool {
    t.len() == 2 && (t[0] == 'e' || t[0] == 'E') && (t[1] == 'x' || t[1] == 'X')
}

/// `t` is the unit `PX` (milliseconds), in any letter case.
pub open spec fn is_px(t: Seq<char>) -> bool {
    t.len() == 2 && (t[0] == 'p' || t[0] == 'P') && (t[1] == 'x' || t[1] == 'X')
}

/// The time-to-live in milliseconds that the arguments of SET ask for
/// (`key value` or `key value EX|PX n`); `0` is no expiry.
pub open spec fn set_ttl(args: Seq<Seq<char>>) -> Result<u128, CmdError> {
    if args.len() == 2 {
        Ok(0)
    } else if args.len() == 4 {
        match parse_unsigned(args[3], u128::MAX as nat) {
            None => Err(CmdError::BadExpiry),
            Some(n) => if is_ex(args[2]) {
                if n * 1000 <= u128::MAX {
                    Ok((n * 1000) as u128)
                } else {
                    Err(CmdError::BadExpiry)
                }
            } else if is_px(args[2]) {
                Ok(n as u128)
            } else {
                Err(CmdError::BadExpiry)
            },
        }
    } else {
        Err(CmdError::ArgCount)
    }
}

/// The words joined with single spaces.
pub open spec fn join_words(ws: Seq<Seq<char>>) -> Seq<char>
    decreases ws.len(),
{
    if ws.len() == 0 {
        Seq::empty()
    } else if ws.len() == 1 {
        ws[0]
    } else {
        join_words(ws.drop_last()) + seq![' '] + ws.last()
    }
}

/// What PING answers: its arguments joined, or `pong` for none.
pub open spec fn ping_reply(args: Option<Seq<Seq<char>>>) -> Seq<char> {
    match args {
        Some(a) => if a.len() == 0 {
            seq!['p', 'o', 'n', 'g']
        } else {
            join_words(a)
        },
        None => seq!['p', 'o', 'n', 'g'],
    }
}

fn unit_matches(t: &str, lower: char, upper: char) -> (r: bool)
    ensures
        r == (t@.len() == 2 && (t@[0] == lower || t@[0] == upper) && (t@[1] == 'x' || t@[1] == 'X')),
{
    if t.unicode_len() != 2 {
        return false;
    }
    let a = t.get_char(0);
    let b = t.get_char(1);
    (a == lower || a == upper) && (b == 'x' || b == 'X')
}

/// The time-to-live that the arguments of SET ask for.
pub fn set_ttl_ms(args: &Vec<String>) -> (r: Result<u128, CmdError>)
    ensures
        r == set_ttl(strings_view(args@)),
{
    let ghost a = strings_view(args@);
    if args.len() == 2 {
        return Ok(0);
    }
    if args.len() != 4 {
        return Err(CmdError::ArgCount);
    }
    assert(a[3] == args@[3]@ && a[2] == args@[2]@);
    let n = match parse_unsigned_max(args[3].as_str(), u128::MAX) {
        Some(n) => n,
        None => {
            return Err(CmdError::BadExpiry);
        },
    };
    if unit_matches(args[2].as_str(), 'e', 'E') {
        match n.checked_mul(1000) {
            Some(ms) => Ok(ms),
            None => Err(CmdError::BadExpiry),
        }
    } else if unit_matches(args[2].as_str(), 'p', 'P') {
        Ok(n)
    } else {
        Err(CmdError::BadExpiry)
    }
}

/// The words joined with single spaces.
pub fn join_args(ws: &Vec<String>) -> (r: String)
    ensures
        r@ == join_words(strings_view(ws@)),
{
    let mut out = String::new();
    let mut i: usize = 0;
    proof {
        reveal_strlit(" ");
    }
    assert(strings_view(ws@.take(0)) =~= Seq::<Seq<char>>::empty());
    while i < ws.len()
        invariant
            i <= ws@.len(),
            out@ == join_words(strings_view(ws@.take(i as int))),
        decreases ws@.len() - i,
    {
        let ghost p = strings_view(ws@.take(i as int));
        let ghost q = strings_view(ws@.take(i + 1));
        assert(q.drop_last() =~= p);
        assert(q.last() == ws@[i as int]@);
        if i > 0 {
            out.append(" ");
            proof {
                reveal_strlit(" ");
            }
            assert(" "@ =~= seq![' ']);
        }
        out.append(ws[i].as_str());
        if i == 0 {
            assert(out@ =~= q[0]);
        } else {
            assert(out@ =~= join_words(p) + seq![' '] + q.last());
        }
        i += 1;
    }
    assert(ws@.take(i as int) =~= ws@);
    out
}

/// What PING answers.
pub fn ping_text(args: &Option<Vec<String>>) -> (r: String)
    ensures
        r@ == ping_reply(match args {
            Some(a) => Some(strings_view(a@)),
            None => None,
        }),
{
    proof {
        reveal_strlit("pong");
    }
    match args {
        Some(a) => {
            if a.len() == 0 {
                let r = "pong".to_owned();
                assert(r@ =~= seq!['p', 'o', 'n', 'g']);
                r
            } else {
                join_args(a)
            }
        },
        None => {
            let r = "pong".to_owned();
            assert(r@ =~= seq!['p', 'o', 'n', 'g']);
            r
        },
    }
}

} // verus!
