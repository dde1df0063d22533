use vstd::prelude::*;
use vstd::string::StringExecFns;

verus! {

/// The character for one decimal digit.
pub open spec fn digit_char(d: int) -> char {
    if d == 0 {
        '0'
    } else if d == 1 {
        '1'
    } else if d == 2 {
        '2'
    } else if d == 3 {
        '3'
    } else if d == 4 {
        '4'
    } else if d == 5 {
        '5'
    } else if d == 6 {
        '6'
    } else if d == 7 {
        '7'
    } else if d == 8 {
        '8'
    } else {
        '9'
    }
}

/// The decimal digits of `n`, most significant first, with no leading
/// zeroes (a single `'0'` for zero itself).
#[verifier::opaque]
pub open spec fn spec_decimal(n: int) -> Seq<char>
    recommends
        n >= 0,
    decreases n,
{
    if n < 10 {
        seq![digit_char(n)]
    } else {
        spec_decimal(n / 10).push(digit_char(n % 10))
    }
}

/// A one-character string slice for the digit `d`.
fn digit_str(d: u64) -> (s: &'static str)
    requires
        d < 10,
    ensures
        s@ == seq![digit_char(d as int)],
{
    proof {
        reveal_strlit("0");
        reveal_strlit("1");
        reveal_strlit("2");
        reveal_strlit("3");
        reveal_strlit("4");
        reveal_strlit("5");
        reveal_strlit("6");
        reveal_strlit("7");
        reveal_strlit("8");
        reveal_strlit("9");
    }
    let s = if d == 0 {
        "0"
    } else if d == 1 {
        "1"
    } else if d == 2 {
        "2"
    } else if d == 3 {
        "3"
    } else if d == 4 {
        "4"
    } else if d == 5 {
        "5"
    } else if d == 6 {
        "6"
    } else if d == 7 {
        "7"
    } else if d == 8 {
        "8"
    } else {
        "9"
    };
    proof {
        assert(s@ =~= seq![digit_char(d as int)]);
    }
    s
}

/// `n` written in decimal.
pub fn u64_to_dec(n: u64) -> (s: String)
    ensures
        s@ == spec_decimal(n as int),
    decreases n,
{
    proof {
        reveal(spec_decimal);
    }
    if n < 10 {
        String::from_str(digit_str(n))
    } else {
        let mut s = u64_to_dec(n / 10);
        s.append(digit_str(n % 10));
        proof {
            assert(s@ =~= spec_decimal(n as int));
        }
        s
    }
}

/// The canonical address of the `k`-th client.
pub open spec fn spec_client_addr(k: int) -> Seq<char> {
    "client-"@ + spec_decimal(k)
}

/// The canonical address of the `k`-th server.
pub open spec fn spec_server_addr(k: int) -> Seq<char> {
    "server-"@ + spec_decimal(k)
}

pub fn client_addr(k: u64) -> (a: String)
    ensures
        a@ == spec_client_addr(k as int),
{
    let mut s = String::from_str("client-");
    let d = u64_to_dec(k);
    s.append(d.as_str());
    proof {
        assert(s@ =~= spec_client_addr(k as int));
    }
    s
}

pub fn server_addr(k: u64) -> (a: String)
    ensures
        a@ == spec_server_addr(k as int),
{
    let mut s = String::from_str("server-");
    let d = u64_to_dec(k);
    s.append(d.as_str());
    proof {
        assert(s@ =~= spec_server_addr(k as int));
    }
    s
}

/// The reserved address of the driver itself.
pub fn simulator_addr() -> (a: String)
    ensures
        a@ == "simulator"@,
{
    String::from_str("simulator")
}

/// The report that one client claimed an identifier twice.
pub open spec fn spec_claimed_twice_msg(addr: Seq<char>, id: int) -> Seq<char> {
    "expected "@ + addr + " not to claim id "@ + spec_decimal(id) + " twice"@
}

/// The report that two clients claimed the same identifier.
pub open spec fn spec_claimed_by_both_msg(a: Seq<char>, b: Seq<char>, id: int) -> Seq<char> {
    "both "@ + a + " and "@ + b + " claimed id "@ + spec_decimal(id)
}

/// The report that a client missed its claim goal.
pub open spec fn spec_goal_missed_msg(addr: Seq<char>, goal: int, got: int) -> Seq<char> {
    "expected "@ + addr + " to claim "@ + spec_decimal(goal) + " ids but got "@ + spec_decimal(got)
}

pub fn claimed_twice_msg(addr: &String, id: u64) -> (m: String)
    ensures
        m@ == spec_claimed_twice_msg(addr@, id as int),
{
    let mut s = String::from_str("expected ");
    s.append(addr.as_str());
    s.append(" not to claim id ");
    let d = u64_to_dec(id);
    s.append(d.as_str());
    s.append(" twice");
    proof {
        assert(s@ =~= spec_claimed_twice_msg(addr@, id as int));
    }
    s
}

pub fn claimed_by_both_msg(a: &String, b: &String, id: u64) -> (m: String)
    ensures
        m@ == spec_claimed_by_both_msg(a@, b@, id as int),
{
    let mut s = String::from_str("both ");
    s.append(a.as_str());
    s.append(" and ");
    s.append(b.as_str());
    s.append(" claimed id ");
    let d = u64_to_dec(id);
    s.append(d.as_str());
    proof {
        assert(s@ =~= spec_claimed_by_both_msg(a@, b@, id as int));
    }
    s
}

pub fn goal_missed_msg(addr: &String, goal: u64, got: u64) -> (m: String)
    ensures
        m@ == spec_goal_missed_msg(addr@, goal as int, got as int),
{
    let mut s = String::from_str("expected ");
    s.append(addr.as_str());
    s.append(" to claim ");
    let d1 = u64_to_dec(goal);
    s.append(d1.as_str());
    s.append(" ids but got ");
    let d2 = u64_to_dec(got);
    s.append(d2.as_str());
    proof {
        assert(s@ =~= spec_goal_missed_msg(addr@, goal as int, got as int));
    }
    s
}

/// The report that the run exceeded its progress budget.
pub fn too_many_iterations_msg() -> (m: String)
    ensures
        m@ == "too many iterations"@,
{
    String::from_str("too many iterations")
}

} // verus!
