//! The swap instruction: its arguments, the accounts it names and the bytes
//! it carries.

use vstd::prelude::*;
use crate::address::{program_address, zero_bytes, Address};
use crate::error::{DecodeError, DomainError};
use crate::le_bytes::{
    field,
    flag_byte,
    le_bytes,
    le_value,
    lemma_le_bytes_len,
    lemma_le_bytes_of_le_value,
    lemma_le_value_of_le_bytes,
    lemma_pow256_values,
    read_u128,
    read_u64,
    write_le,
};
use crate::quote::{
    calculate_token_b_amount,
    price_text,
    pricemath_sqrt_price_x64_to_price,
    token_b_amount,
};
use crate::tick_index::{
    addresses_view,
    poolutil_get_tick_array_pubkeys_for_swap,
    swap_tick_arrays,
};
use crate::whirlpool::{generate_oracle_pda, oracle_seeds, Whirlpool};

verus! {

/// Number of bytes that the arguments of a swap take.
pub const SWAP_DATA_LEN: usize = 34;

/// The arguments of the pool program's swap instruction.
#[derive(Debug, Clone, Copy, PartialEq, Eq, Structural)]
pub struct SwapData {
    pub amount: u64,
    pub other_amount_threshold: u64,
    pub sqrt_price_limit: u128,
    pub amount_specified_is_input: bool,
    pub a_to_b: bool,
}

/// What a caller asks for: an amount of one token to be swapped for another.
#[derive(Debug, Clone, Copy)]
pub struct SwapTokenData {
    pub amount: u64,
    pub other_amount_threshold: u64,
    pub sqrt_price_limit: u128,
    pub amount_specified_is_input: bool,
    pub token_in: Address,
    pub token_out: Address,
    pub token_in_decimals: i8,
    pub token_out_decimals: i8,
    pub slippage: u16,
}

/// An account that an instruction names, and how it uses it.
#[derive(Debug, Clone, Copy)]
pub struct AccountMeta {
    pub pubkey: Address,
    pub is_signer: bool,
    pub is_writable: bool,
}

/// An instruction for a program: the accounts it works on and its data.
#[derive(Debug)]
pub struct Instruction {
    pub program_id: Address,
    pub accounts: Vec<AccountMeta>,
    pub data: Vec<u8>,
}

/// The eight bytes by which the pool program knows a swap instruction.
pub open spec fn swap_discriminator() -> Seq<u8> {
    seq![248u8, 198u8, 158u8, 145u8, 225u8, 117u8, 135u8, 200u8]
}

impl SwapData {
    /// The bytes of the arguments: each field in turn, integers least
    /// significant byte first, a flag as 0 or 1, nothing between the fields.
    pub open spec fn encoding(self) -> Seq<u8> {
        le_bytes(self.amount as nat, 8) + le_bytes(self.other_amount_threshold as nat, 8)
            + le_bytes(self.sqrt_price_limit as nat, 16) + seq![
            flag_byte(self.amount_specified_is_input),
        ] + seq![flag_byte(self.a_to_b)]
    }

    /// Whether the arguments are what the first `SWAP_DATA_LEN` bytes of
    /// `bytes` hold.
    pub open spec fn is_decoding_of(self, bytes: Seq<u8>) -> bool {
        &&& self.amount == le_value(field(bytes, 0, 8))
        &&& self.other_amount_threshold == le_value(field(bytes, 8, 8))
        &&& self.sqrt_price_limit == le_value(field(bytes, 16, 16))
        &&& bytes[32] == flag_byte(self.amount_specified_is_input)
        &&& bytes[33] == flag_byte(self.a_to_b)
    }

    /// The arguments as bytes.
    pub fn serialize(&self) -> (bytes: Vec<u8>)
        ensures
            bytes@ == self.encoding(),
    {
        let mut bytes: Vec<u8> = Vec::new();
        write_le(&mut bytes, self.amount as u128, 8);
        write_le(&mut bytes, self.other_amount_threshold as u128, 8);
        write_le(&mut bytes, self.sqrt_price_limit, 16);
        bytes.push(if self.amount_specified_is_input { 1u8 } else { 0u8 });
        bytes.push(if self.a_to_b { 1u8 } else { 0u8 });
        proof {
            assert(bytes@ =~= self.encoding());
        }
        bytes
    }

    /// Decodes the arguments from the front of `data`. The length is
    /// checked, and that each flag is 0 or 1.
    pub fn deserialize(data: &[u8]) -> (r: Result<SwapData, DecodeError>)
        ensures
            match r {
                Ok(swap) => data@.len() >= SWAP_DATA_LEN && swap.is_decoding_of(data@),
                Err(DecodeError::BufferTooShort { needed, got }) => data@.len() < SWAP_DATA_LEN
                    && needed == SWAP_DATA_LEN && got == data@.len(),
                Err(DecodeError::InvalidFlag { offset }) => data@.len() >= SWAP_DATA_LEN && (
                offset == 32 || offset == 33) && data@[offset as int] > 1 && (offset == 33
                    ==> data@[32] <= 1),
            },
    {
        if data.len() < SWAP_DATA_LEN {
            return Err(DecodeError::BufferTooShort { needed: SWAP_DATA_LEN, got: data.len() });
        }
        if data[32] > 1 {
            return Err(DecodeError::InvalidFlag { offset: 32 });
        }
        if data[33] > 1 {
            return Err(DecodeError::InvalidFlag { offset: 33 });
        }
        Ok(
            SwapData {
                amount: read_u64(data, 0),
                other_amount_threshold: read_u64(data, 8),
                sqrt_price_limit: read_u128(data, 16),
                amount_specified_is_input: data[32] == 1,
                a_to_b: data[33] == 1,
            },
        )
    }
}

impl Default for SwapData {
    /// The arguments that ask for nothing: zero throughout, no flag set.
    fn default() -> (swap: SwapData)
        ensures
            swap == (SwapData {
                amount: 0,
                other_amount_threshold: 0,
                sqrt_price_limit: 0,
                amount_specified_is_input: false,
                a_to_b: false,
            }),
    {
        SwapData {
            amount: 0,
            other_amount_threshold: 0,
            sqrt_price_limit: 0,
            amount_specified_is_input: false,
            a_to_b: false,
        }
    }
}

/// The arguments of a swap take `SWAP_DATA_LEN` bytes, and decoding those
/// bytes, whatever follows them, gives the arguments back.
pub proof fn lemma_swap_data_round_trip(swap: SwapData, rest: Seq<u8>)
    ensures
        swap.encoding().len() == SWAP_DATA_LEN,
        swap.is_decoding_of(swap.encoding() + rest),
{
    let a = le_bytes(swap.amount as nat, 8);
    let b = le_bytes(swap.other_amount_threshold as nat, 8);
    let c = le_bytes(swap.sqrt_price_limit as nat, 16);
    let bytes = swap.encoding() + rest;
    lemma_pow256_values();
    lemma_le_bytes_len(swap.amount as nat, 8);
    lemma_le_bytes_len(swap.other_amount_threshold as nat, 8);
    lemma_le_bytes_len(swap.sqrt_price_limit as nat, 16);
    lemma_le_value_of_le_bytes(swap.amount as nat, 8);
    lemma_le_value_of_le_bytes(swap.other_amount_threshold as nat, 8);
    lemma_le_value_of_le_bytes(swap.sqrt_price_limit as nat, 16);
    assert(field(bytes, 0, 8) =~= a);
    assert(field(bytes, 8, 8) =~= b);
    assert(field(bytes, 16, 16) =~= c);
}

/// Bytes that decode to arguments are the bytes of those arguments: no two
/// buffers of `SWAP_DATA_LEN` bytes decode to the same arguments, and
/// encoding what was decoded gives the buffer back.
pub proof fn lemma_swap_data_encoding_of_decoded(swap: SwapData, bytes: Seq<u8>)
    requires
        bytes.len() >= SWAP_DATA_LEN,
        swap.is_decoding_of(bytes),
    ensures
        swap.encoding() == bytes.subrange(0, SWAP_DATA_LEN as int),
{
    lemma_le_bytes_of_le_value(field(bytes, 0, 8));
    lemma_le_bytes_of_le_value(field(bytes, 8, 8));
    lemma_le_bytes_of_le_value(field(bytes, 16, 16));
    assert(swap.encoding() =~= bytes.subrange(0, SWAP_DATA_LEN as int));
}

impl SwapTokenData {
    /// A request to swap exactly `amount` of `token_in` for `token_out`,
    /// with no limit yet on the output or the price.
    pub fn new(
        amount: u64,
        token_in: Address,
        token_out: Address,
        token_in_decimals: i8,
        token_out_decimals: i8,
        slippage: u16,
    ) -> (request: SwapTokenData)
        ensures
            request.amount == amount,
            request.other_amount_threshold == 0,
            request.sqrt_price_limit == 0,
            request.amount_specified_is_input,
            request.token_in == token_in,
            request.token_out == token_out,
            request.token_in_decimals == token_in_decimals,
            request.token_out_decimals == token_out_decimals,
            request.slippage == slippage,
    {
        SwapTokenData {
            amount,
            other_amount_threshold: 0,
            sqrt_price_limit: 0,
            amount_specified_is_input: true,
            token_in,
            token_out,
            token_in_decimals,
            token_out_decimals,
            slippage,
        }
    }
}

impl Default for SwapTokenData {
    /// The request for nothing: zero throughout, no flag set.
    fn default() -> (request: SwapTokenData)
        ensures
            request.amount == 0,
            request.other_amount_threshold == 0,
            request.sqrt_price_limit == 0,
            !request.amount_specified_is_input,
            request.token_in@ == zero_bytes(),
            request.token_out@ == zero_bytes(),
            request.token_in_decimals == 0,
            request.token_out_decimals == 0,
            request.slippage == 0,
    {
        SwapTokenData {
            amount: 0,
            other_amount_threshold: 0,
            sqrt_price_limit: 0,
            amount_specified_is_input: false,
            token_in: Address::default(),
            token_out: Address::default(),
            token_in_decimals: 0,
            token_out_decimals: 0,
            slippage: 0,
        }
    }
}

impl AccountMeta {
    /// An account that the instruction may write to.
    pub fn new(pubkey: Address, is_signer: bool) -> (meta: AccountMeta)
        ensures
            meta == (AccountMeta { pubkey, is_signer, is_writable: true }),
    {
        AccountMeta { pubkey, is_signer, is_writable: true }
    }
}

/// What was worked out for a swap from the pool's state: its direction, the
/// price of the token that goes in, and the least output to accept.
#[derive(Debug)]
pub struct SwapQuote {
    pub a_to_b: bool,
    pub token_in_price: String,
    pub token_out_amount_min: u64,
}

/// The addresses that a swap names, in the order in which the pool program
/// takes them: the token program, the authority, the pool, then for each of
/// the two tokens the owner's account and the pool's vault, the three tick
/// arrays, and the oracle.
pub open spec fn swap_account_keys(
    token_program: Seq<u8>,
    token_authority: Seq<u8>,
    whirlpool: Seq<u8>,
    token_owner_account_a: Seq<u8>,
    token_vault_a: Seq<u8>,
    token_owner_account_b: Seq<u8>,
    token_vault_b: Seq<u8>,
    tick_arrays: Seq<Seq<u8>>,
    oracle: Seq<u8>,
) -> Seq<Seq<u8>> {
    seq![
        token_program,
        token_authority,
        whirlpool,
        token_owner_account_a,
        token_vault_a,
        token_owner_account_b,
        token_vault_b,
        tick_arrays[0],
        tick_arrays[1],
        tick_arrays[2],
        oracle,
    ]
}

/// Whether `accounts` names the addresses `keys` in their order, each as
/// writable, and the second of them, the authority, as the only signer.
pub open spec fn is_swap_account_list(accounts: Seq<AccountMeta>, keys: Seq<Seq<u8>>) -> bool {
    &&& accounts.len() == keys.len()
    &&& forall|i: int|
        0 <= i < accounts.len() ==> {
            &&& (#[trigger] accounts[i]).pubkey@ == keys[i]
            &&& accounts[i].is_writable
            &&& accounts[i].is_signer == (i == 1)
        }
}

/// The accounts of a swap, in the order in which the pool program takes
/// them.
pub fn swap_accounts(
    token_program: &Address,
    token_authority: &Address,
    whirlpool: &Address,
    token_owner_account_a: &Address,
    token_vault_a: &Address,
    token_owner_account_b: &Address,
    token_vault_b: &Address,
    tick_arrays: &[Address; 3],
    oracle: &Address,
) -> (accounts: Vec<AccountMeta>)
    ensures
        is_swap_account_list(
            accounts@,
            swap_account_keys(
                token_program@,
                token_authority@,
                whirlpool@,
                token_owner_account_a@,
                token_vault_a@,
                token_owner_account_b@,
                token_vault_b@,
                addresses_view(*tick_arrays),
                oracle@,
            ),
        ),
{
    let mut accounts: Vec<AccountMeta> = Vec::new();
    accounts.push(AccountMeta::new(*token_program, false));
    accounts.push(AccountMeta::new(*token_authority, true));
    accounts.push(AccountMeta::new(*whirlpool, false));
    accounts.push(AccountMeta::new(*token_owner_account_a, false));
    accounts.push(AccountMeta::new(*token_vault_a, false));
    accounts.push(AccountMeta::new(*token_owner_account_b, false));
    accounts.push(AccountMeta::new(*token_vault_b, false));
    accounts.push(AccountMeta::new(tick_arrays[0], false));
    accounts.push(AccountMeta::new(tick_arrays[1], false));
    accounts.push(AccountMeta::new(tick_arrays[2], false));
    accounts.push(AccountMeta::new(*oracle, false));
    accounts
}

/// The data of a swap instruction: the eight bytes that say "swap", then
/// the arguments.
pub fn swap_instruction_data(swap_data: &SwapData) -> (data: Vec<u8>)
    ensures
        data@ == swap_discriminator() + swap_data.encoding(),
{
    let mut data: Vec<u8> = Vec::new();
    data.push(248);
    data.push(198);
    data.push(158);
    data.push(145);
    data.push(225);
    data.push(117);
    data.push(135);
    data.push(200);
    let mut arguments = swap_data.serialize();
    proof {
        assert(data@ =~= swap_discriminator());
    }
    data.append(&mut arguments);
    data
}

/// The swap instruction for the program `orca_swap_program_id`, from the
/// accounts and arguments as the caller has them.
pub fn orca_swap_instruction(
    orca_swap_program_id: &Address,
    token_program: &Address,
    whirlpool: &Address,
    token_authority: &Address,
    token_owner_account_a: &Address,
    token_vault_a: &Address,
    token_owner_account_b: &Address,
    token_vault_b: &Address,
    tick_arrays: &[Address; 3],
    oracle: &Address,
    swap_data: &SwapData,
) -> (instruction: Instruction)
    ensures
        instruction.program_id == *orca_swap_program_id,
        is_swap_account_list(
            instruction.accounts@,
            swap_account_keys(
                token_program@,
                token_authority@,
                whirlpool@,
                token_owner_account_a@,
                token_vault_a@,
                token_owner_account_b@,
                token_vault_b@,
                addresses_view(*tick_arrays),
                oracle@,
            ),
        ),
        instruction.data@ == swap_discriminator() + swap_data.encoding(),
{
    let accounts = swap_accounts(
        token_program,
        token_authority,
        whirlpool,
        token_owner_account_a,
        token_vault_a,
        token_owner_account_b,
        token_vault_b,
        tick_arrays,
        oracle,
    );
    let data = swap_instruction_data(swap_data);
    Instruction { program_id: *orca_swap_program_id, accounts, data }
}

/// What `quote_orca_pool_swap` returns: the direction, that is whether the
/// token that goes in is the pool's token A, the text of the price and the
/// least output, or the reason why there is no quote.
pub open spec fn swap_quote(
    whirlpool: Whirlpool,
    swap_token_data: SwapTokenData,
    slippage: u16,
) -> Result<(bool, Seq<char>, u64), DomainError> {
    match price_text(
        whirlpool.sqrt_price,
        swap_token_data.token_in_decimals,
        swap_token_data.token_out_decimals,
    ) {
        None => Err(DomainError::PriceOutOfRange),
        Some(price) => match token_b_amount(
            price,
            swap_token_data.amount,
            slippage,
            whirlpool.fee_rate,
            whirlpool.protocol_fee_rate,
        ) {
            Err(e) => Err(e),
            Ok(least) => Ok((swap_token_data.token_in@ == whirlpool.token_mint_a@, price, least)),
        },
    }
}

/// Works out direction, price and least output of a swap against a pool.
pub fn quote_orca_pool_swap(
    whirlpool: &Whirlpool,
    swap_token_data: &SwapTokenData,
    slippage: u16,
) -> (r: Result<SwapQuote, DomainError>)
    ensures
        match r {
            Ok(quote) => swap_quote(*whirlpool, *swap_token_data, slippage) == Ok::<
                (bool, Seq<char>, u64),
                DomainError,
            >((quote.a_to_b, quote.token_in_price@, quote.token_out_amount_min)),
            Err(e) => swap_quote(*whirlpool, *swap_token_data, slippage) == Err::<
                (bool, Seq<char>, u64),
                DomainError,
            >(e),
        },
{
    let a_to_b = swap_token_data.token_in == whirlpool.token_mint_a;
    let token_in_price = match pricemath_sqrt_price_x64_to_price(
        whirlpool.sqrt_price,
        swap_token_data.token_in_decimals,
        swap_token_data.token_out_decimals,
    ) {
        Ok(price) => price,
        Err(e) => {
            return Err(e);
        },
    };
    let token_out_amount_min = match calculate_token_b_amount(
        token_in_price.as_str(),
        swap_token_data.amount,
        slippage,
        whirlpool.fee_rate,
        whirlpool.protocol_fee_rate,
    ) {
        Ok(least) => least,
        Err(e) => {
            return Err(e);
        },
    };
    Ok(SwapQuote { a_to_b, token_in_price, token_out_amount_min })
}

/// The addresses that the swap of `build_orca_pool_swap_instruction` names,
/// or the reason why they cannot all be had: the first reason met among the
/// three tick arrays, else that the oracle has no address.
pub open spec fn pool_swap_keys(
    whirlpool: Whirlpool,
    a_to_b: bool,
    user: Seq<u8>,
    pool_address: Seq<u8>,
    dex_address: Seq<u8>,
    user_token_a_account: Seq<u8>,
    user_token_b_account: Seq<u8>,
    token_program: Seq<u8>,
) -> Result<Seq<Seq<u8>>, DomainError> {
    match swap_tick_arrays(
        whirlpool.tick_current_index,
        whirlpool.tick_spacing,
        a_to_b,
        dex_address,
        pool_address,
    ) {
        Err(e) => Err(e),
        Ok(tick_arrays) => match program_address(oracle_seeds(pool_address), dex_address) {
            None => Err(DomainError::NoProgramAddress),
            Some((oracle, _)) => Ok(
                swap_account_keys(
                    token_program,
                    user,
                    pool_address,
                    user_token_a_account,
                    whirlpool.token_vault_a@,
                    user_token_b_account,
                    whirlpool.token_vault_b@,
                    tick_arrays,
                    oracle,
                ),
            ),
        },
    }
}

/// The arguments of the swap of `build_orca_pool_swap_instruction`: the
/// whole amount goes in, the quote's least output is the threshold, and the
/// price is not limited.
pub open spec fn pool_swap_data(amount: u64, token_out_amount_min: u64, a_to_b: bool) -> SwapData {
    SwapData {
        amount,
        other_amount_threshold: token_out_amount_min,
        sqrt_price_limit: 0,
        amount_specified_is_input: true,
        a_to_b,
    }
}

/// The swap instruction for a quoted swap against a pool, once the user's
/// two token accounts are known.
pub fn build_orca_pool_swap_instruction(
    whirlpool: &Whirlpool,
    quote: &SwapQuote,
    user: &Address,
    swap_token_data: &SwapTokenData,
    pool_address: &Address,
    dex_address: &Address,
    user_token_a_account: &Address,
    user_token_b_account: &Address,
    orca_swap_program_id: &Address,
    token_program: &Address,
) -> (r: Result<Instruction, DomainError>)
    ensures
        match (
            r,
            pool_swap_keys(
                *whirlpool,
                quote.a_to_b,
                user@,
                pool_address@,
                dex_address@,
                user_token_a_account@,
                user_token_b_account@,
                token_program@,
            ),
        ) {
            (Ok(instruction), Ok(keys)) => {
                &&& instruction.program_id == *orca_swap_program_id
                &&& is_swap_account_list(instruction.accounts@, keys)
                &&& instruction.data@ == swap_discriminator() + pool_swap_data(
                    swap_token_data.amount,
                    quote.token_out_amount_min,
                    quote.a_to_b,
                ).encoding()
            },
            (Err(e), Err(expected)) => e == expected,
            _ => false,
        },
{
    let tick_arrays = match poolutil_get_tick_array_pubkeys_for_swap(
        whirlpool.tick_current_index,
        whirlpool.tick_spacing,
        quote.a_to_b,
        dex_address,
        pool_address,
    ) {
        Ok(addresses) => addresses,
        Err(e) => {
            return Err(e);
        },
    };
    let oracle = match generate_oracle_pda(pool_address, dex_address) {
        Ok((address, _bump)) => address,
        Err(e) => {
            return Err(e);
        },
    };
    let swap_data = SwapData {
        amount: swap_token_data.amount,
        other_amount_threshold: quote.token_out_amount_min,
        sqrt_price_limit: 0,
        amount_specified_is_input: true,
        a_to_b: quote.a_to_b,
    };
    Ok(
        orca_swap_instruction(
            orca_swap_program_id,
            token_program,
            pool_address,
            user,
            user_token_a_account,
            &whirlpool.token_vault_a,
            user_token_b_account,
            &whirlpool.token_vault_b,
            &tick_arrays,
            &oracle,
            &swap_data,
        ),
    )
}

} // verus!
