use crate::error::ContractError;
use vstd::prelude::*;

verus! {

/// Whether an account is on the blacklist.
pub open spec fn blacklisted(blacklist: Seq<String>, addr: Seq<char>) -> bool {
    exists|i: int| 0 <= i < blacklist.len() && blacklist[i]@ == addr
}

/// Checks that the sender is the deposit token.
pub fn xastro_token_check(deposit_token_addr: &String, sender: &String) -> (r: Result<
    (),
    ContractError,
>)
    ensures
        r is Ok <==> sender@ == deposit_token_addr@,
        r is Err ==> r->Err_0 is Unauthorized,
{
    if *sender != *deposit_token_addr {
        Err(ContractError::Unauthorized {  })
    } else {
        Ok(())
    }
}

/// Checks that an account is not on the blacklist.
pub fn blacklist_check(blacklist: &Vec<String>, addr: &String) -> (r: Result<(), ContractError>)
    ensures
        r is Ok <==> !blacklisted(blacklist@, addr@),
        r is Err ==> r->Err_0 is AddressBlacklisted && r->Err_0->AddressBlacklisted_0@ == addr@,
{
    let mut i: usize = 0;
    while i < blacklist.len()
        invariant
            i <= blacklist@.len(),
            forall|j: int| 0 <= j < i ==> blacklist@[j]@ != addr@,
        decreases blacklist@.len() - i,
    {
        if blacklist[i] == *addr {
            return Err(ContractError::AddressBlacklisted(addr.clone()));
        }
        i += 1;
    }
    Ok(())
}

} // verus!
