use vstd::prelude::*;
use vstd::string::StringExecFns;
use crate::hex::{
    all_hex, fixed_hex_text, hex_digits, hex_value, lemma_fixed_hex_text, lemma_pow16_constants,
    lemma_pow16_monotonic, pow16, push_fixed_hex,
};
use crate::text::{chars_of, push_chars};

verus! {

/// The `globals()` selector of the HEX contract.
pub fn globals_call() -> (r: String)
    ensures
        r@ == "0xc3124525"@,
{
    String::from_str("0xc3124525")
}

/// The `getReserves()` selector of the USDC/HEX pair.
pub fn get_reserves_call() -> (r: String)
    ensures
        r@ == "0x0902f1ac"@,
{
    String::from_str("0x0902f1ac")
}

/// The call data of `dailyData(day)`.
pub open spec fn daily_data_call_spec(day: u64) -> Seq<char> {
    "0x90de6871"@ + fixed_hex_text(day as nat, 64)
}

/// The call data of `dailyData(day)`: the selector and the day as one 64-digit word.
pub fn daily_data_call(day: u64) -> (r: String)
    ensures
        r@ == daily_data_call_spec(day),
{
    let mut out = String::from_str("0x90de6871");
    push_fixed_hex(&mut out, day, 64);
    out
}

/// The `dailyData(day)` call data is the selector followed by one 64-digit hexadecimal
/// word that reads back as the day itself.
pub proof fn lemma_daily_data_call_word(day: u64)
    ensures
        daily_data_call_spec(day).len() == 74,
        daily_data_call_spec(day).subrange(0, 10) == "0x90de6871"@,
        all_hex(daily_data_call_spec(day).subrange(10, 74)),
        hex_value(hex_digits(daily_data_call_spec(day).subrange(10, 74))) == day,
{
    reveal_strlit("0x90de6871");
    let word = fixed_hex_text(day as nat, 64);
    lemma_fixed_hex_text(day as nat, 64);
    lemma_pow16_constants();
    assert(day < pow16(64)) by {
        lemma_pow16_monotonic(16, 64);
    }
    assert(day as nat % pow16(64) == day);
    let t = daily_data_call_spec(day);
    assert(t.subrange(0, 10) =~= "0x90de6871"@);
    assert(t.subrange(10, 74) =~= word);
}

/// A wallet address as the stake reader takes it: `0x` and 42 bytes in all.
pub open spec fn is_wallet_address_spec(addr: &str) -> bool {
    addr@.len() >= 2 && addr@[0] == '0' && addr@[1] == 'x' && addr.len() == 42
}

/// Whether the stake reader takes `addr`: it starts with `0x` and is 42 bytes long.
pub fn is_wallet_address(addr: &str) -> (r: bool)
    ensures
        r == is_wallet_address_spec(addr),
{
    if addr.len() != 42 {
        return false;
    }
    let cs = chars_of(addr);
    cs.len() >= 2 && cs[0] == '0' && cs[1] == 'x'
}

/// The address without its `0x`, left-padded with 24 zeros to one 64-digit word.
pub open spec fn padded_address_spec(addr: Seq<char>) -> Seq<char> {
    "000000000000000000000000"@ + addr.subrange(2, addr.len() as int)
}

/// The call data of `stakeCount(address)`.
pub open spec fn stake_count_call_spec(addr: Seq<char>) -> Seq<char> {
    "0x33060d90"@ + padded_address_spec(addr)
}

/// The call data of `stakeLists(address, index)`.
pub open spec fn stake_lists_call_spec(addr: Seq<char>, index: u64) -> Seq<char> {
    "0x2607443b"@ + padded_address_spec(addr) + fixed_hex_text(index as nat, 64)
}

/// The call data of `stakeCount(address)` for a wallet address.
pub fn stake_count_call(addr: &str) -> (r: String)
    requires
        is_wallet_address_spec(addr),
    ensures
        r@ == stake_count_call_spec(addr@),
{
    let cs = chars_of(addr);
    let mut out = String::from_str("0x33060d90");
    out.append("000000000000000000000000");
    push_chars(&mut out, &cs, 2, cs.len());
    assert(out@ =~= stake_count_call_spec(addr@));
    out
}

/// The call data of `stakeLists(address, index)` for a wallet address.
pub fn stake_lists_call(addr: &str, index: u64) -> (r: String)
    requires
        is_wallet_address_spec(addr),
    ensures
        r@ == stake_lists_call_spec(addr@, index),
{
    let cs = chars_of(addr);
    let mut out = String::from_str("0x2607443b");
    out.append("000000000000000000000000");
    push_chars(&mut out, &cs, 2, cs.len());
    push_fixed_hex(&mut out, index, 64);
    assert(out@ =~= stake_lists_call_spec(addr@, index));
    out
}

} // verus!
