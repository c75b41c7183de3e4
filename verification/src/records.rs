//! The protocol's records as they lie in account data: how each kind announces itself, where
//! the fields stand that the monitor reads, and which accounts hold which kind.

use crate::account::{Account, AccountView};
use crate::chain_data::ChainData;
use crate::ledger::Ledger;
use crate::pubkey::Pubkey;
use vstd::bytes::{spec_u64_from_le_bytes, u64_from_le_bytes};
use vstd::prelude::*;
use vstd::slice::slice_subrange;

verus! {

/// The kinds of record that the monitor reads.
#[derive(Clone, Copy, Debug, PartialEq, Eq, Structural)]
pub enum DataType {
    /// The group: the markets and tokens that belong together.
    MangoGroup,
    /// A margin account of one user.
    MangoAccount,
    /// The prices and indexes shared by all accounts of a group.
    MangoCache,
}

/// How one kind of record announces itself: by its first byte and by its exact length.
#[derive(Clone, Copy, Debug, PartialEq, Eq, Structural)]
pub struct RecordShape {
    pub data_type: u8,
    pub size: usize,
}

/// Where the records keep what the monitor reads. All offsets count bytes from the start of
/// the record.
#[derive(Clone, Copy, Debug, PartialEq, Eq, Structural)]
pub struct Layout {
    pub mango_group: RecordShape,
    pub mango_account: RecordShape,
    pub mango_cache: RecordShape,
    /// In a group: the number of oracles, 8 bytes, little-endian.
    pub num_oracles_offset: usize,
    /// In a margin account: the address of its group.
    pub mango_group_offset: usize,
    /// In a margin account: `max_pairs` flags of one byte each, one for each market.
    pub in_margin_basket_offset: usize,
    /// In a margin account: `max_pairs` addresses, one for each market.
    pub spot_open_orders_offset: usize,
    /// In a margin account: the flag of one byte that says it is being liquidated.
    pub being_liquidated_offset: usize,
    /// The number of markets that a group can have.
    pub max_pairs: usize,
}

/// The length of an open-orders record.
pub const OPEN_ORDERS_SIZE: usize = 3216;

/// The length of an open-orders account: 5 bytes that spell `serum`, the record, and 7 bytes
/// of padding.
pub const OPEN_ORDERS_ACCOUNT_SIZE: usize = 3228;

/// The length of what stands before the record in an open-orders account.
pub const OPEN_ORDERS_HEAD: usize = 5;

/// The length of what stands after the record in an open-orders account.
pub const OPEN_ORDERS_TAIL: usize = 7;

/// The bytes with which an open-orders account begins: `serum`.
pub open spec fn open_orders_prefix() -> Seq<u8> {
    seq![115u8, 101u8, 114u8, 117u8, 109u8]
}

/// The open-orders record of the exchange. The library does not look into it: it finds the
/// record in an account's data and carries it to the health computation.
#[verifier::external_type_specification]
#[verifier::external_body]
pub struct ExOpenOrders(serum_dex::state::OpenOrders);

/// The open-orders record that the given bytes are, where they have the length of one.
pub uninterp spec fn open_orders_of(bytes: Seq<u8>) -> serum_dex::state::OpenOrders;

/// Calls `std::mem::size_of` for `serum_dex::state::OpenOrders`. That struct is packed, and
/// its fields come to 3216 bytes: six `u64`, two `[u64; 4]`, two `u128`, one `[u128; 128]`
/// and one `[u64; 128]`. The contract claims that number.
#[verifier::external_body]
fn open_orders_size() -> (size: usize)
    ensures
        size == OPEN_ORDERS_SIZE,
{
    std::mem::size_of::<serum_dex::state::OpenOrders>()
}

/// Calls `bytemuck::from_bytes`, which hands the bytes back as a reference to the record
/// they are. It panics unless the bytes have the length of the record and stand at an
/// address that suits its alignment; the record is packed, so every address suits it, and
/// the length is required. The result depends on the bytes alone; the contract names it.
#[verifier::external_body]
fn open_orders_from_bytes(bytes: &[u8]) -> (record: &serum_dex::state::OpenOrders)
    requires
        bytes@.len() == OPEN_ORDERS_SIZE,
    ensures
        *record == open_orders_of(bytes@),
{
    bytemuck::from_bytes::<serum_dex::state::OpenOrders>(bytes)
}

/// Why a record could not be had.
#[derive(Clone, Copy, Debug, PartialEq, Eq)]
pub enum LoadError {
    /// The mirror holds no version of the account.
    NotFound { pubkey: Pubkey },
    /// The account has not the length of the record asked for.
    BadSize { data_type: u8, len: usize, expected: usize },
    /// The account's first byte announces another kind of record.
    UnexpectedDataType { data_type: u8, found: u8 },
    /// The account has not the length of an open-orders account.
    BadOpenOrdersSize { len: usize, expected: usize },
    /// The account does not begin as an open-orders account does.
    BadOpenOrdersPrefix,
    /// The group counts more oracles than it can have markets.
    TooManyOracles { num_oracles: u64, max_pairs: usize },
}

/// A flag of one byte: set unless the byte is zero.
pub open spec fn flag_at(data: Seq<u8>, offset: int) -> bool {
    data[offset] != 0
}

/// The address whose 32 bytes stand at `offset`.
pub open spec fn key_at(data: Seq<u8>, offset: int) -> Pubkey {
    Pubkey::of(data.subrange(offset, offset + 32))
}

impl Layout {
    /// Every field lies within its record, and every record has its first byte.
    pub open spec fn wf(&self) -> bool {
        &&& self.mango_group.size >= 1
        &&& self.mango_account.size >= 1
        &&& self.mango_cache.size >= 1
        &&& self.num_oracles_offset + 8 <= self.mango_group.size
        &&& self.mango_group_offset + 32 <= self.mango_account.size
        &&& self.in_margin_basket_offset + self.max_pairs <= self.mango_account.size
        &&& self.spot_open_orders_offset + 32 * self.max_pairs <= self.mango_account.size
        &&& self.being_liquidated_offset < self.mango_account.size
    }

    /// Whether every field lies within its record.
    pub fn is_valid(&self) -> (valid: bool)
        ensures
            valid == self.wf(),
    {
        let account = self.mango_account.size;
        if self.mango_group.size < 1 || account < 1 || self.mango_cache.size < 1 {
            return false;
        }
        if self.mango_group.size < 8 || self.num_oracles_offset > self.mango_group.size - 8 {
            return false;
        }
        if account < 32 || self.mango_group_offset > account - 32 {
            return false;
        }
        if self.max_pairs > account || self.in_margin_basket_offset > account - self.max_pairs {
            return false;
        }
        if self.max_pairs > account / 32 {
            assert(32 * self.max_pairs > account) by (nonlinear_arith)
                requires
                    self.max_pairs > account / 32,
            ;
            return false;
        }
        assert(32 * self.max_pairs <= account) by (nonlinear_arith)
            requires
                self.max_pairs <= account / 32,
        ;
        if self.spot_open_orders_offset > account - 32 * self.max_pairs {
            return false;
        }
        self.being_liquidated_offset < account
    }

    /// How records of a kind announce themselves.
    pub open spec fn spec_shape(&self, data_type: DataType) -> RecordShape {
        match data_type {
            DataType::MangoGroup => self.mango_group,
            DataType::MangoAccount => self.mango_account,
            DataType::MangoCache => self.mango_cache,
        }
    }

    /// How records of a kind announce themselves.
    #[verifier::when_used_as_spec(spec_shape)]
    pub fn shape(&self, data_type: DataType) -> (shape: RecordShape)
        ensures
            shape == self.spec_shape(data_type),
    {
        match data_type {
            DataType::MangoGroup => self.mango_group,
            DataType::MangoAccount => self.mango_account,
            DataType::MangoCache => self.mango_cache,
        }
    }

    /// The number of oracles that a group record counts.
    pub open spec fn spec_num_oracles(&self, group: Seq<u8>) -> u64 {
        spec_u64_from_le_bytes(
            group.subrange(self.num_oracles_offset as int, self.num_oracles_offset + 8),
        )
    }

    /// The number of oracles that a group record counts.
    pub fn num_oracles(&self, group: &[u8]) -> (n: u64)
        requires
            self.wf(),
            group@.len() == self.mango_group.size,
        ensures
            n == self.spec_num_oracles(group@),
    {
        u64_from_le_bytes(
            slice_subrange(group, self.num_oracles_offset, self.num_oracles_offset + 8),
        )
    }

    /// The group that a margin account record belongs to.
    pub open spec fn spec_mango_group(&self, account: Seq<u8>) -> Pubkey {
        key_at(account, self.mango_group_offset as int)
    }

    /// Whether a margin account record says that it is being liquidated.
    pub open spec fn spec_being_liquidated(&self, account: Seq<u8>) -> bool {
        flag_at(account, self.being_liquidated_offset as int)
    }

    /// Whether a margin account record says that it is being liquidated.
    pub fn being_liquidated(&self, account: &[u8]) -> (flag: bool)
        requires
            self.wf(),
            account@.len() == self.mango_account.size,
        ensures
            flag == self.spec_being_liquidated(account@),
    {
        account[self.being_liquidated_offset] != 0
    }

    /// Whether a margin account record has market `i` in its basket.
    pub open spec fn spec_in_margin_basket(&self, account: Seq<u8>, i: int) -> bool {
        flag_at(account, self.in_margin_basket_offset + i)
    }

    /// Whether a margin account record has market `i` in its basket.
    pub fn in_margin_basket(&self, account: &[u8], i: usize) -> (flag: bool)
        requires
            self.wf(),
            account@.len() == self.mango_account.size,
            i < self.max_pairs,
        ensures
            flag == self.spec_in_margin_basket(account@, i as int),
    {
        account[self.in_margin_basket_offset + i] != 0
    }

    /// The address of the open-orders account that a margin account record names for market `i`.
    pub open spec fn spec_spot_open_orders(&self, account: Seq<u8>, i: int) -> Pubkey {
        key_at(account, self.spot_open_orders_offset + 32 * i)
    }

    /// The address of the open-orders account that a margin account record names for market `i`.
    pub fn spot_open_orders(&self, account: &[u8], i: usize) -> (key: Pubkey)
        requires
            self.wf(),
            account@.len() == self.mango_account.size,
            i < self.max_pairs,
        ensures
            key == self.spec_spot_open_orders(account@, i as int),
    {
        assert(32 * i + 32 <= 32 * self.max_pairs) by (nonlinear_arith)
            requires
                i < self.max_pairs,
        ;
        match Pubkey::read_from(account, self.spot_open_orders_offset + 32 * i) {
            Some(key) => key,
            None => Pubkey::new([0u8; 32]),
        }
    }
}

impl RecordShape {
    /// What is wrong with `data` as a record of this shape, if anything: the length is
    /// judged first, then the first byte.
    pub open spec fn mismatch(&self, data: Seq<u8>) -> Option<LoadError> {
        if data.len() != self.size {
            Some(
                LoadError::BadSize {
                    data_type: self.data_type,
                    len: data.len() as usize,
                    expected: self.size,
                },
            )
        } else if data[0] != self.data_type {
            Some(LoadError::UnexpectedDataType { data_type: self.data_type, found: data[0] })
        } else {
            None
        }
    }
}

/// The record of the given kind that an account holds.
///
/// The account's data must have exactly the length of such a record, and its first byte must
/// announce the kind. The record is then the whole of the data.
pub fn load_mango_account<'a>(data_type: DataType, account: &'a Account, layout: &Layout) -> (record:
    Result<&'a [u8], LoadError>)
    requires
        layout.wf(),
    ensures
        match record {
            Ok(bytes) => layout.shape(data_type).mismatch(account.data@) is None && bytes@
                == account.data@,
            Err(e) => layout.shape(data_type).mismatch(account.data@) == Some(e),
        },
{
    let shape = layout.shape(data_type);
    let data = account.data();
    if data.len() != shape.size {
        return Err(
            LoadError::BadSize { data_type: shape.data_type, len: data.len(), expected: shape.size },
        );
    }
    if data[0] != shape.data_type {
        return Err(LoadError::UnexpectedDataType { data_type: shape.data_type, found: data[0] });
    }
    Ok(data)
}

/// What loading a record of the given kind from the mirror comes to: the data of the
/// version that the mirror answers with, or the reason why there is none.
pub open spec fn record_in(ledger: Ledger, layout: Layout, data_type: DataType, pubkey: Pubkey) -> Result<
    Seq<u8>,
    LoadError,
> {
    match ledger.lookup(pubkey) {
        None => Err(LoadError::NotFound { pubkey }),
        Some(version) => match layout.shape(data_type).mismatch(version.account.data) {
            Some(e) => Err(e),
            None => Ok(version.account.data),
        },
    }
}

/// The record of the given kind that the mirror holds under `pubkey`.
pub fn load_mango_account_from_chain<'a>(
    data_type: DataType,
    chain_data: &'a ChainData,
    pubkey: &Pubkey,
    layout: &Layout,
) -> (record: Result<&'a [u8], LoadError>)
    requires
        layout.wf(),
        chain_data.wf(),
    ensures
        match record {
            Ok(bytes) => record_in(chain_data@, *layout, data_type, *pubkey) == Ok::<
                Seq<u8>,
                LoadError,
            >(bytes@),
            Err(e) => record_in(chain_data@, *layout, data_type, *pubkey) == Err::<
                Seq<u8>,
                LoadError,
            >(e),
        },
{
    match chain_data.account(pubkey) {
        Err(_) => Err(LoadError::NotFound { pubkey: *pubkey }),
        Ok(account) => load_mango_account(data_type, account, layout),
    }
}

/// What is wrong with `data` as an open-orders account, if anything: the length is judged
/// first, then the first bytes.
pub open spec fn open_orders_mismatch(data: Seq<u8>) -> Option<LoadError> {
    if data.len() != OPEN_ORDERS_ACCOUNT_SIZE {
        Some(
            LoadError::BadOpenOrdersSize {
                len: data.len() as usize,
                expected: OPEN_ORDERS_ACCOUNT_SIZE,
            },
        )
    } else if data.subrange(0, OPEN_ORDERS_HEAD as int) != open_orders_prefix() {
        Some(LoadError::BadOpenOrdersPrefix)
    } else {
        None
    }
}

/// The bytes of the open-orders record in the data of an open-orders account: what stands
/// between the head and the tail.
pub open spec fn open_orders_bytes(data: Seq<u8>) -> Seq<u8> {
    data.subrange(OPEN_ORDERS_HEAD as int, data.len() - OPEN_ORDERS_TAIL)
}

/// The open-orders record in the data of an open-orders account.
pub open spec fn open_orders_record(data: Seq<u8>) -> serum_dex::state::OpenOrders {
    open_orders_of(open_orders_bytes(data))
}

/// The open-orders record that an account holds.
///
/// The account's data must have exactly the length of an open-orders account and begin with
/// `serum`. The record is what stands between those 5 bytes and the last 7.
pub fn load_open_orders(account: &Account) -> (record: Result<
    &serum_dex::state::OpenOrders,
    LoadError,
>)
    ensures
        match record {
            Ok(open_orders) => open_orders_mismatch(account.data@) is None && *open_orders
                == open_orders_record(account.data@),
            Err(e) => open_orders_mismatch(account.data@) == Some(e),
        },
{
    let data = account.data();
    let expected_size = 12 + open_orders_size();
    if data.len() != expected_size {
        return Err(LoadError::BadOpenOrdersSize { len: data.len(), expected: expected_size });
    }
    let head = slice_subrange(data, 0, OPEN_ORDERS_HEAD);
    if head[0] != 115 || head[1] != 101 || head[2] != 114 || head[3] != 117 || head[4] != 109 {
        return Err(LoadError::BadOpenOrdersPrefix);
    }
    assert(head@ =~= open_orders_prefix());
    Ok(open_orders_from_bytes(slice_subrange(data, OPEN_ORDERS_HEAD, data.len() - OPEN_ORDERS_TAIL)))
}

/// Whether an account is a margin account of the given group: the program owns it, its data
/// has the length of a margin account record, its first byte announces one, and the record
/// names the group.
pub open spec fn mango_account_of(
    account: AccountView,
    program_id: Pubkey,
    group_id: Pubkey,
    layout: Layout,
) -> bool {
    &&& account.owner == program_id
    &&& account.data.len() == layout.mango_account.size
    &&& account.data[0] == layout.mango_account.data_type
    &&& layout.spec_mango_group(account.data) == group_id
}

/// Whether an account is a margin account of the given group.
pub fn is_mango_account(
    account: &Account,
    program_id: &Pubkey,
    group_id: &Pubkey,
    layout: &Layout,
) -> (is: bool)
    requires
        layout.wf(),
    ensures
        is == mango_account_of(account@, *program_id, *group_id, *layout),
{
    let data = account.data();
    if account.owner != *program_id || data.len() == 0 {
        return false;
    }
    if data[0] != layout.mango_account.data_type {
        return false;
    }
    if data.len() != layout.mango_account.size {
        return false;
    }
    match Pubkey::read_from(data, layout.mango_group_offset) {
        Some(group) => group == *group_id,
        None => false,
    }
}

/// Whether an account is a cache of the protocol: the program owns it, its data has the
/// length of a cache record, and its first byte announces one.
pub open spec fn mango_cache_of(account: AccountView, program_id: Pubkey, layout: Layout) -> bool {
    &&& account.owner == program_id
    &&& account.data.len() > 0
    &&& account.data.len() == layout.mango_cache.size
    &&& account.data[0] == layout.mango_cache.data_type
}

/// Whether an account is a cache of the protocol.
pub fn is_mango_cache(account: &Account, program_id: &Pubkey, layout: &Layout) -> (is: bool)
    ensures
        is == mango_cache_of(account@, *program_id, *layout),
{
    let data = account.data();
    if account.owner != *program_id || data.len() == 0 {
        return false;
    }
    if data[0] != layout.mango_cache.data_type {
        return false;
    }
    data.len() == layout.mango_cache.size
}

} // verus!
