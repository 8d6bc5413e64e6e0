use vstd::prelude::*;

use vstd::string::StringExecFns;

verus! {

/// Failures of the wall clock.
#[derive(PartialEq, Eq, Clone, Copy, Debug, Structural)]
pub enum ClockError {
    /// The system clock reads earlier than the Unix epoch.
    BeforeEpoch,
}

/// Relies on `std::time::SystemTime::now` and `duration_since`: the moment
/// it returns depends on the wall clock, so nothing is promised of the
/// number beyond which error marks a clock before the epoch.
#[verifier::external_body]
pub fn now_ts() -> (r: Result<u128, ClockError>)
{
    match std::time::SystemTime::now().duration_since(std::time::UNIX_EPOCH) {
        Ok(d) => Ok(d.as_millis()),
        Err(_) => Err(ClockError::BeforeEpoch),
    }
}

/// Relies on `uuid::Uuid::new_v4`: a fresh random token, hashed down to 64
/// bits.  The result is random, so nothing is promised of it.
#[verifier::external_body]
pub fn fresh_node_id() -> (r: u64)
{
    let token = uuid::Uuid::new_v4().to_string();
    let mut hasher: std::hash::DefaultHasher = std::hash::DefaultHasher::new();
    std::hash::Hash::hash(&token, &mut hasher);
    std::hash::Hasher::finish(&hasher)
}

/// The character a decimal digit prints as.
pub open spec fn dec_digit(d: nat) -> char {
    if d == 0 {
        '0'
    } else if d == 1 {
        '1'
    } else if d == 2 {
        '2'
    } else if d == 3 {
        '3'
    } else if d == 4 {
        '4'
    } else if d == 5 {
        '5'
    } else if d == 6 {
        '6'
    } else if d == 7 {
        '7'
    } else if d == 8 {
        '8'
    } else {
        '9'
    }
}

/// The decimal digits of a number, most significant first.
pub open spec fn spec_dec(n: nat) -> Seq<char>
    decreases n,
{
    if n < 10 {
        seq![dec_digit(n)]
    } else {
        spec_dec(n / 10).push(dec_digit(n % 10))
    }
}

/// One decimal digit as text.
fn digit_str(d: u64) -> (r: &'static str)
    requires
        d < 10,
    ensures
        r@ == seq![dec_digit(d as nat)],
{
    proof {
        reveal_strlit("0");
        reveal_strlit("1");
        reveal_strlit("2");
        reveal_strlit("3");
        reveal_strlit("4");
        reveal_strlit("5");
        reveal_strlit("6");
        reveal_strlit("7");
        reveal_strlit("8");
        reveal_strlit("9");
        assert("0"@ =~= seq!['0']);
        assert("1"@ =~= seq!['1']);
        assert("2"@ =~= seq!['2']);
        assert("3"@ =~= seq!['3']);
        assert("4"@ =~= seq!['4']);
        assert("5"@ =~= seq!['5']);
        assert("6"@ =~= seq!['6']);
        assert("7"@ =~= seq!['7']);
        assert("8"@ =~= seq!['8']);
        assert("9"@ =~= seq!['9']);
    }
    if d == 0 {
        "0"
    } else if d == 1 {
        "1"
    } else if d == 2 {
        "2"
    } else if d == 3 {
        "3"
    } else if d == 4 {
        "4"
    } else if d == 5 {
        "5"
    } else if d == 6 {
        "6"
    } else if d == 7 {
        "7"
    } else if d == 8 {
        "8"
    } else {
        "9"
    }
}

/// A number as decimal text.
pub fn dec_string(n: u64) -> (r: String)
    ensures
        r@ == spec_dec(n as nat),
    decreases n,
{
    if n < 10 {
        let r = String::from_str(digit_str(n));
        proof {
            assert(r@ =~= spec_dec(n as nat));
        }
        r
    } else {
        let mut s = dec_string(n / 10);
        s.append(digit_str(n % 10));
        proof {
            assert(spec_dec((n / 10) as nat) + seq![dec_digit((n % 10) as nat)] =~= spec_dec(
                (n / 10) as nat,
            ).push(dec_digit((n % 10) as nat)));
            assert(s@ =~= spec_dec(n as nat));
        }
        s
    }
}

} // verus!
