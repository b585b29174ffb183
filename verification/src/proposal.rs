use vstd::prelude::*;

verus! {

/// A governance proposal that sets the minimum chain fee of sends to Ethereum.
#[derive(Debug)]
pub struct FeesProposal {
    pub title: String,
    pub description: String,
    pub min_chain_fee_basis_points: u64,
}

/// The character of the decimal digit `d`.
pub open spec fn digit_char(d: nat) -> char {
    (48 + d) as char
}

/// The decimal notation of `x`, without leading zeros.
pub open spec fn decimal(x: nat) -> Seq<char>
    decreases x,
{
    if x < 10 {
        seq![digit_char(x)]
    } else {
        decimal(x / 10).push(digit_char(x % 10))
    }
}

fn digit_str(d: u64) -> (r: &'static str)
    requires
        d < 10,
    ensures
        r@ == seq![digit_char(d as nat)],
{
    proof {
        reveal_strlit("0");
        reveal_strlit("1");
        reveal_strlit("2");
        reveal_strlit("3");
        reveal_strlit("4");
        reveal_strlit("5");
        reveal_strlit("6");
        reveal_strlit("7");
        reveal_strlit("8");
        reveal_strlit("9");
    }
    let r = match d {
        0 => "0",
        1 => "1",
        2 => "2",
        3 => "3",
        4 => "4",
        5 => "5",
        6 => "6",
        7 => "7",
        8 => "8",
        _ => "9",
    };
    assert(r@ =~= seq![digit_char(d as nat)]);
    r
}

/// `x` in decimal notation.
pub fn decimal_string(x: u64) -> (r: String)
    ensures
        r@ == decimal(x as nat),
    decreases x,
{
    if x < 10 {
        String::from_str(digit_str(x))
    } else {
        let mut r = decimal_string(x / 10);
        r.append(digit_str(x % 10));
        r
    }
}

/// The denomination of the bridged representation of the ERC20 token at
/// `erc20_address`.
pub fn erc20_denom(erc20_address: &str) -> (r: String)
    ensures
        r@ == "gravity"@ + erc20_address@,
{
    let r = String::from_str("gravity");
    r.concat(erc20_address)
}

/// The proposal that sets the minimum chain fee to `min_chain_fee_basis_points`.
pub fn fees_proposal(min_chain_fee_basis_points: u64) -> (r: FeesProposal)
    ensures
        r.title@ == "Set MinChainFeeBasisPoints to "@ + decimal(min_chain_fee_basis_points as nat),
        r.description@ == "MinChainFeeBasisPoints!"@,
        r.min_chain_fee_basis_points == min_chain_fee_basis_points,
{
    let mut title = String::from_str("Set MinChainFeeBasisPoints to ");
    let number = decimal_string(min_chain_fee_basis_points);
    title.append(number.as_str());
    FeesProposal {
        title,
        description: String::from_str("MinChainFeeBasisPoints!"),
        min_chain_fee_basis_points,
    }
}

/// The proposal, made while sends are queued, that raises the minimum chain fee
/// tenfold from `current_fee_basis_points`.
pub fn raise_fees_proposal(current_fee_basis_points: u64) -> (r: FeesProposal)
    requires
        current_fee_basis_points * 10 <= u64::MAX,
    ensures
        r.title@ == "Send to eth fees"@,
        r.description@ == "send to eth fees"@,
        r.min_chain_fee_basis_points == current_fee_basis_points * 10,
{
    FeesProposal {
        title: String::from_str("Send to eth fees"),
        description: String::from_str("send to eth fees"),
        min_chain_fee_basis_points: current_fee_basis_points * 10,
    }
}


/// The number that a string of decimal digits stands for.
pub open spec fn digits_value(s: Seq<char>) -> nat
    decreases s.len(),
{
    if s.len() == 0 {
        0
    } else {
        digits_value(s.drop_last()) * 10 + ((s.last() as nat) - 48) as nat
    }
}

/// The decimal notation of `x` is made of the digits `0` to `9`, does not start
/// with `0` unless `x` is zero, and reads back as `x`.
pub proof fn lemma_decimal_reads_back(x: nat)
    ensures
        decimal(x).len() > 0,
        forall|i: int| 0 <= i < decimal(x).len() ==> '0' <= #[trigger] decimal(x)[i] <= '9',
        decimal(x)[0] == '0' ==> x == 0,
        digits_value(decimal(x)) == x,
    decreases x,
{
    assert((digit_char(x % 10) as nat) == 48 + x % 10);
    if x < 10 {
        assert((digit_char(x) as nat) == 48 + x);
        let s = decimal(x);
        assert(s.drop_last() =~= Seq::<char>::empty());
        assert(s.last() == digit_char(x));
        assert(digits_value(s.drop_last()) == 0);
        assert(digits_value(s) == ((digit_char(x) as nat) - 48) as nat);
    } else {
        lemma_decimal_reads_back(x / 10);
        assert(x == (x / 10) * 10 + x % 10);
        let s = decimal(x);
        assert(s.drop_last() =~= decimal(x / 10));
        assert(s[0] == decimal(x / 10)[0]);
        assert(digits_value(s) == digits_value(decimal(x / 10)) * 10 + x % 10);
        assert forall|i: int| 0 <= i < s.len() implies '0' <= #[trigger] s[i] <= '9' by {
            if i < s.len() - 1 {
                assert(s[i] == decimal(x / 10)[i]);
            }
        }
    }
}

} // verus!
