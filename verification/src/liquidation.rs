//! Judging margin accounts: what is asked of the health computation, what its answer makes
//! of an account, and how the set of liquidatable accounts follows the answers.

use crate::chain_data::ChainData;
use crate::ledger::Ledger;
use crate::pubkey::Pubkey;
use crate::pubkey_set::PubkeySet;
use crate::records::{
    load_mango_account_from_chain, load_open_orders, open_orders_mismatch, open_orders_record,
    record_in, DataType, Layout, LoadError,
};
use vstd::prelude::*;

verus! {

/// Which of the protocol's two thresholds a health is measured against.
#[derive(Clone, Copy, Debug, PartialEq, Eq, Structural)]
pub enum HealthType {
    /// The stricter one, which an account must meet to take on more risk.
    Init,
    /// The one below which an account may be liquidated.
    Maint,
}

/// The threshold that decides whether an account is liquidatable: an account that is being
/// liquidated stays so until it meets the stricter threshold again.
pub open spec fn spec_health_type_for(being_liquidated: bool) -> HealthType {
    if being_liquidated {
        HealthType::Init
    } else {
        HealthType::Maint
    }
}

/// The threshold that decides whether an account is liquidatable.
#[verifier::when_used_as_spec(spec_health_type_for)]
pub fn health_type_for(being_liquidated: bool) -> (health_type: HealthType)
    ensures
        health_type == spec_health_type_for(being_liquidated),
{
    if being_liquidated {
        HealthType::Init
    } else {
        HealthType::Maint
    }
}

/// What is handed to the health computation: the records of the group, of its cache and of
/// the margin account, the open-orders record of each market (none for a market that is not
/// in the account's basket), and the threshold.
pub struct HealthQuery<'a> {
    pub group: &'a [u8],
    pub cache: &'a [u8],
    pub account: &'a [u8],
    pub open_orders: Vec<Option<&'a serum_dex::state::OpenOrders>>,
    pub health_type: HealthType,
}

/// A [`HealthQuery`] as a value.
pub struct HealthQueryView {
    pub group: Seq<u8>,
    pub cache: Seq<u8>,
    pub account: Seq<u8>,
    pub open_orders: Seq<Option<serum_dex::state::OpenOrders>>,
    pub health_type: HealthType,
}

/// The open-orders records as values.
pub open spec fn open_orders_views(
    open_orders: Seq<Option<&serum_dex::state::OpenOrders>>,
) -> Seq<Option<serum_dex::state::OpenOrders>> {
    Seq::new(
        open_orders.len(),
        |i: int|
            match open_orders[i] {
                Some(record) => Some(*record),
                None => None,
            },
    )
}

impl<'a> View for HealthQuery<'a> {
    type V = HealthQueryView;

    open spec fn view(&self) -> HealthQueryView {
        HealthQueryView {
            group: self.group@,
            cache: self.cache@,
            account: self.account@,
            open_orders: open_orders_views(self.open_orders@),
            health_type: self.health_type,
        }
    }
}

/// What the health computation made of an account. The health is a fixed-point number with
/// 48 fractional bits, measured against the initial threshold if the account is being
/// liquidated and against the maintenance threshold if not.
#[derive(Clone, Copy, Debug, PartialEq, Eq, Structural)]
pub struct IsLiquidatable {
    pub liquidatable: bool,
    pub being_liquidated: bool,
    pub health: i128,
}

impl IsLiquidatable {
    /// The judgement that a health comes to: liquidatable exactly if it is negative.
    pub open spec fn spec_new(health: i128, being_liquidated: bool) -> IsLiquidatable {
        IsLiquidatable { liquidatable: health < 0, being_liquidated, health }
    }

    /// The judgement that a health comes to: liquidatable exactly if it is negative.
    #[verifier::when_used_as_spec(spec_new)]
    pub fn new(health: i128, being_liquidated: bool) -> (judgement: IsLiquidatable)
        ensures
            judgement == IsLiquidatable::spec_new(health, being_liquidated),
    {
        IsLiquidatable { liquidatable: health < 0, being_liquidated, health }
    }
}

/// The judgement that an answer of the health computation comes to; its failure is passed on.
pub open spec fn judged<E>(health: Result<i128, E>, being_liquidated: bool) -> Result<
    IsLiquidatable,
    E,
> {
    match health {
        Ok(h) => Ok(IsLiquidatable::new(h, being_liquidated)),
        Err(e) => Err(e),
    }
}

/// `answer` is what the health computation gave when it was asked `asked`.
pub open spec fn health_reported<E, H: Fn(&HealthQuery) -> Result<i128, E>>(
    health: H,
    asked: HealthQueryView,
    answer: Result<i128, E>,
) -> bool {
    exists|query: HealthQuery| query@ == asked && #[trigger] call_ensures(health, (&query,), answer)
}

/// What is asked about a margin account.
pub open spec fn health_query(
    layout: Layout,
    group: Seq<u8>,
    cache: Seq<u8>,
    account: Seq<u8>,
    open_orders: Seq<Option<serum_dex::state::OpenOrders>>,
) -> HealthQueryView {
    HealthQueryView {
        group,
        cache,
        account,
        open_orders,
        health_type: health_type_for(layout.spec_being_liquidated(account)),
    }
}

/// Judges a margin account: asks the health computation, against the initial threshold if
/// the account is being liquidated and against the maintenance threshold if not, and calls
/// the account liquidatable exactly if the health is negative.
pub fn compute_liquidatable<'a, E, H>(
    group: &'a [u8],
    cache: &'a [u8],
    account: &'a [u8],
    open_orders: Vec<Option<&'a serum_dex::state::OpenOrders>>,
    layout: &Layout,
    health: &H,
) -> (result: Result<IsLiquidatable, E>) where H: Fn(&HealthQuery) -> Result<i128, E>
    requires
        layout.wf(),
        account@.len() == layout.mango_account.size,
        forall|query: &HealthQuery| call_requires(*health, (query,)),
    ensures
        exists|answer: Result<i128, E>|
            #[trigger] health_reported(
                *health,
                health_query(*layout, group@, cache@, account@, open_orders_views(open_orders@)),
                answer,
            ) && result == judged(answer, layout.spec_being_liquidated(account@)),
{
    let being_liquidated = layout.being_liquidated(account);
    let query = HealthQuery {
        group,
        cache,
        account,
        open_orders,
        health_type: health_type_for(being_liquidated),
    };
    let answer = health(&query);
    proof {
        assert(health_reported(
            *health,
            health_query(*layout, group@, cache@, account@, open_orders_views(open_orders@)),
            answer,
        ));
    }
    match answer {
        Ok(h) => Ok(IsLiquidatable::new(h, being_liquidated)),
        Err(e) => Err(e),
    }
}

/// A change in whether an account is liquidatable.
#[derive(Clone, Copy, Debug, PartialEq, Eq)]
pub enum LiquidatableInfo {
    /// The account has become liquidatable.
    Start { account: Pubkey },
    /// The account is no longer liquidatable.
    Stop { account: Pubkey },
}

/// What a judgement says of an account, if there is one: whether it is liquidatable.
pub open spec fn verdict_of<E>(result: Result<IsLiquidatable, E>) -> Option<bool> {
    match result {
        Ok(judgement) => Some(judgement.liquidatable),
        Err(_) => None,
    }
}

/// How the set of liquidatable accounts follows a verdict on one account, and what is
/// announced.
///
/// An account found liquidatable that was not in the set enters it, and `Start` is
/// announced. An account found not liquidatable that was in the set leaves it, and `Stop` is
/// announced. Anything else, the lack of a verdict too, changes and announces nothing.
pub open spec fn transition(set: Set<Pubkey>, account: Pubkey, verdict: Option<bool>) -> (
    Set<Pubkey>,
    Option<LiquidatableInfo>,
) {
    match verdict {
        Some(true) if !set.contains(account) => (
            set.insert(account),
            Some(LiquidatableInfo::Start { account }),
        ),
        Some(false) if set.contains(account) => (
            set.remove(account),
            Some(LiquidatableInfo::Stop { account }),
        ),
        _ => (set, None),
    }
}

/// Lets the set of liquidatable accounts follow the judgement of one account, and hands out
/// what is to be announced.
pub fn handle_result<E>(
    account_id: &Pubkey,
    liquidatable_result: &Result<IsLiquidatable, E>,
    currently_liquidatable: &mut PubkeySet,
) -> (event: Option<LiquidatableInfo>)
    requires
        old(currently_liquidatable).wf(),
    ensures
        final(currently_liquidatable).wf(),
        (final(currently_liquidatable)@, event) == transition(
            old(currently_liquidatable)@,
            *account_id,
            verdict_of(*liquidatable_result),
        ),
        liquidatable_result matches Ok(judgement) ==> final(currently_liquidatable)@.contains(
            *account_id,
        ) == judgement.liquidatable,
{
    match liquidatable_result {
        Err(_) => None,
        Ok(res) => {
            let was_liquidatable = currently_liquidatable.contains(account_id);
            if res.liquidatable && !was_liquidatable {
                currently_liquidatable.insert(*account_id);
                Some(LiquidatableInfo::Start { account: *account_id })
            } else if !res.liquidatable && was_liquidatable {
                currently_liquidatable.remove(account_id);
                Some(LiquidatableInfo::Stop { account: *account_id })
            } else {
                None
            }
        },
    }
}

/// What market `i` adds to a query about a margin account: for a market of the group that
/// is in the account's basket, the open-orders record that the mirror holds under the
/// address that the account names; for any other market, nothing.
pub open spec fn open_orders_at(
    ledger: Ledger,
    layout: Layout,
    group: Seq<u8>,
    account: Seq<u8>,
    i: int,
) -> Result<Option<serum_dex::state::OpenOrders>, LoadError> {
    if i < layout.spec_num_oracles(group) && layout.spec_in_margin_basket(account, i) {
        let pubkey = layout.spec_spot_open_orders(account, i);
        match ledger.lookup(pubkey) {
            None => Err(LoadError::NotFound { pubkey }),
            Some(version) => match open_orders_mismatch(version.account.data) {
                Some(e) => Err(e),
                None => Ok(Some(open_orders_record(version.account.data))),
            },
        }
    } else {
        Ok(None)
    }
}

/// What the first `n` markets add to a query, or the failure of the first that fails.
pub open spec fn open_orders_upto(
    ledger: Ledger,
    layout: Layout,
    group: Seq<u8>,
    account: Seq<u8>,
    n: int,
) -> Result<Seq<Option<serum_dex::state::OpenOrders>>, LoadError>
    decreases n,
{
    if n <= 0 {
        Ok(Seq::empty())
    } else {
        match open_orders_upto(ledger, layout, group, account, n - 1) {
            Err(e) => Err(e),
            Ok(front) => match open_orders_at(ledger, layout, group, account, n - 1) {
                Err(e) => Err(e),
                Ok(record) => Ok(front.push(record)),
            },
        }
    }
}

/// The open-orders records for a query about a margin account, one place for each market
/// that a group can have.
pub open spec fn open_orders_in(
    ledger: Ledger,
    layout: Layout,
    group: Seq<u8>,
    account: Seq<u8>,
) -> Result<Seq<Option<serum_dex::state::OpenOrders>>, LoadError> {
    if layout.spec_num_oracles(group) > layout.max_pairs {
        Err(
            LoadError::TooManyOracles {
                num_oracles: layout.spec_num_oracles(group),
                max_pairs: layout.max_pairs,
            },
        )
    } else {
        open_orders_upto(ledger, layout, group, account, layout.max_pairs as int)
    }
}

/// Gathers the open-orders records for a query about a margin account.
pub fn get_open_orders<'a>(
    chain_data: &'a ChainData,
    group: &[u8],
    account: &[u8],
    layout: &Layout,
) -> (open_orders: Result<Vec<Option<&'a serum_dex::state::OpenOrders>>, LoadError>)
    requires
        chain_data.wf(),
        layout.wf(),
        group@.len() == layout.mango_group.size,
        account@.len() == layout.mango_account.size,
    ensures
        match open_orders {
            Ok(records) => open_orders_in(chain_data@, *layout, group@, account@) == Ok::<
                Seq<Option<serum_dex::state::OpenOrders>>,
                LoadError,
            >(open_orders_views(records@)),
            Err(e) => open_orders_in(chain_data@, *layout, group@, account@) == Err::<
                Seq<Option<serum_dex::state::OpenOrders>>,
                LoadError,
            >(e),
        },
{
    let num_oracles = layout.num_oracles(group);
    if num_oracles > layout.max_pairs as u64 {
        return Err(LoadError::TooManyOracles { num_oracles, max_pairs: layout.max_pairs });
    }
    let mut unpacked: Vec<Option<&'a serum_dex::state::OpenOrders>> = Vec::new();
    let mut i: usize = 0;
    assert(open_orders_views(unpacked@) =~= Seq::empty());
    while i < layout.max_pairs
        invariant
            chain_data.wf(),
            layout.wf(),
            group@.len() == layout.mango_group.size,
            account@.len() == layout.mango_account.size,
            num_oracles == layout.spec_num_oracles(group@),
            num_oracles <= layout.max_pairs,
            i <= layout.max_pairs,
            open_orders_upto(chain_data@, *layout, group@, account@, i as int) == Ok::<
                Seq<Option<serum_dex::state::OpenOrders>>,
                LoadError,
            >(open_orders_views(unpacked@)),
        decreases layout.max_pairs - i,
    {
        let ghost before = open_orders_views(unpacked@);
        let mut record: Option<&'a serum_dex::state::OpenOrders> = None;
        if (i as u64) < num_oracles && layout.in_margin_basket(account, i) {
            let pubkey = layout.spot_open_orders(account, i);
            let found = match chain_data.account(&pubkey) {
                Err(_) => Err(LoadError::NotFound { pubkey }),
                Ok(open_orders_account) => load_open_orders(open_orders_account),
            };
            match found {
                Err(e) => {
                    proof {
                        lemma_open_orders_failure(
                            chain_data@,
                            *layout,
                            group@,
                            account@,
                            i + 1,
                            layout.max_pairs as int,
                        );
                    }
                    return Err(e);
                },
                Ok(open_orders) => {
                    record = Some(open_orders);
                },
            }
        }
        unpacked.push(record);
        proof {
            assert(open_orders_views(unpacked@) =~= before.push(
                match record {
                    Some(r) => Some(*r),
                    None => None,
                },
            ));
        }
        i += 1;
    }
    Ok(unpacked)
}

/// A failure among the first markets is the failure of the whole.
pub proof fn lemma_open_orders_failure(
    ledger: Ledger,
    layout: Layout,
    group: Seq<u8>,
    account: Seq<u8>,
    n: int,
    m: int,
)
    requires
        n <= m,
        open_orders_upto(ledger, layout, group, account, n) is Err,
    ensures
        open_orders_upto(ledger, layout, group, account, m) == open_orders_upto(
            ledger,
            layout,
            group,
            account,
            n,
        ),
    decreases m - n,
{
    if n < m {
        lemma_open_orders_failure(ledger, layout, group, account, n, m - 1);
    }
}


/// Why a round of judging could not begin.
#[derive(Clone, Copy, Debug, PartialEq, Eq)]
pub enum RoundError {
    /// The group's record could not be had.
    Group(LoadError),
    /// The cache's record could not be had.
    Cache(LoadError),
}

/// Why a round of judging cannot begin, if it cannot: the group's record is tried first,
/// then the cache's.
pub open spec fn round_failure(
    ledger: Ledger,
    layout: Layout,
    group_id: Pubkey,
    cache_id: Pubkey,
) -> Option<RoundError> {
    match record_in(ledger, layout, DataType::MangoGroup, group_id) {
        Err(e) => Some(RoundError::Group(e)),
        Ok(_) => match record_in(ledger, layout, DataType::MangoCache, cache_id) {
            Err(e) => Some(RoundError::Cache(e)),
            Ok(_) => None,
        },
    }
}

/// What became of judging one account.
#[derive(Debug)]
pub enum Evaluation<E> {
    /// The account's record, or one of its open-orders records, could not be had.
    NotLoaded(LoadError),
    /// The health computation was asked; this is what its answer comes to.
    Computed(Result<IsLiquidatable, E>),
}

impl<E> Evaluation<E> {
    /// Whether the account was found liquidatable, where it was judged at all.
    pub open spec fn verdict(self) -> Option<bool> {
        match self {
            Evaluation::NotLoaded(_) => None,
            Evaluation::Computed(result) => verdict_of(result),
        }
    }
}

/// `evaluation` is what judging the account under `pubkey` comes to: the reason why a record
/// could not be had, where one could not, and otherwise what the answer of the health
/// computation comes to, asked about the records that the mirror holds.
pub open spec fn evaluated<E, H: Fn(&HealthQuery) -> Result<i128, E>>(
    ledger: Ledger,
    layout: Layout,
    group: Seq<u8>,
    cache: Seq<u8>,
    pubkey: Pubkey,
    health: H,
    evaluation: Evaluation<E>,
) -> bool {
    match record_in(ledger, layout, DataType::MangoAccount, pubkey) {
        Err(e) => evaluation == Evaluation::<E>::NotLoaded(e),
        Ok(account) => match open_orders_in(ledger, layout, group, account) {
            Err(e) => evaluation == Evaluation::<E>::NotLoaded(e),
            Ok(open_orders) => exists|answer: Result<i128, E>|
                #[trigger] health_reported(
                    health,
                    health_query(layout, group, cache, account, open_orders),
                    answer,
                ) && evaluation == Evaluation::Computed(
                    judged(answer, layout.spec_being_liquidated(account)),
                ),
        },
    }
}

/// Judges the account that the mirror holds under `pubkey`.
pub fn evaluate<'a, E, H>(
    chain_data: &'a ChainData,
    layout: &Layout,
    group: &'a [u8],
    cache: &'a [u8],
    pubkey: &Pubkey,
    health: &H,
) -> (evaluation: Evaluation<E>) where H: Fn(&HealthQuery) -> Result<i128, E>
    requires
        chain_data.wf(),
        layout.wf(),
        group@.len() == layout.mango_group.size,
        forall|query: &HealthQuery| call_requires(*health, (query,)),
    ensures
        evaluated(chain_data@, *layout, group@, cache@, *pubkey, *health, evaluation),
{
    let account = match load_mango_account_from_chain(
        DataType::MangoAccount,
        chain_data,
        pubkey,
        layout,
    ) {
        Ok(account) => account,
        Err(e) => {
            return Evaluation::NotLoaded(e);
        },
    };
    let open_orders = match get_open_orders(chain_data, group, account, layout) {
        Ok(open_orders) => open_orders,
        Err(e) => {
            return Evaluation::NotLoaded(e);
        },
    };
    Evaluation::Computed(compute_liquidatable(group, cache, account, open_orders, layout, health))
}

/// One step of a round: an account, and whether it was found liquidatable, where it was
/// judged at all.
pub struct Step {
    pub account: Pubkey,
    pub verdict: Option<bool>,
}

/// The set of liquidatable accounts after the first `n` steps.
pub open spec fn set_after(before: Set<Pubkey>, steps: Seq<Step>, n: int) -> Set<Pubkey>
    decreases n,
{
    if n <= 0 {
        before
    } else {
        transition(set_after(before, steps, n - 1), steps[n - 1].account, steps[n - 1].verdict).0
    }
}

/// What step `i` announces.
pub open spec fn event_at(before: Set<Pubkey>, steps: Seq<Step>, i: int) -> Option<
    LiquidatableInfo,
> {
    transition(set_after(before, steps, i), steps[i].account, steps[i].verdict).1
}

/// One account of a round: what became of judging it, and what was announced.
#[derive(Debug)]
pub struct Outcome<E> {
    pub pubkey: Pubkey,
    pub evaluation: Evaluation<E>,
    pub event: Option<LiquidatableInfo>,
}

/// What the outcomes announce, in order.
pub open spec fn announced<E>(outcomes: Seq<Outcome<E>>) -> Seq<LiquidatableInfo>
    decreases outcomes.len(),
{
    if outcomes.len() == 0 {
        Seq::empty()
    } else {
        let front = announced(outcomes.drop_last());
        match outcomes.last().event {
            Some(event) => front.push(event),
            None => front,
        }
    }
}

/// What a round announces, in order; a round that failed as a whole announces nothing.
pub open spec fn round_announced<E>(round: Result<Vec<Outcome<E>>, RoundError>) -> Seq<
    LiquidatableInfo,
> {
    match round {
        Ok(outcomes) => announced(outcomes@),
        Err(_) => Seq::empty(),
    }
}

/// What a round announces, in order.
pub fn announcements<E>(round: &Result<Vec<Outcome<E>>, RoundError>) -> (events: Vec<
    LiquidatableInfo,
>)
    ensures
        events@ == round_announced(*round),
{
    let mut events: Vec<LiquidatableInfo> = Vec::new();
    match round {
        Err(_) => {},
        Ok(outcomes) => {
            let mut i: usize = 0;
            assert(outcomes@.take(0) =~= Seq::empty());
            while i < outcomes.len()
                invariant
                    i <= outcomes.len(),
                    events@ == announced(outcomes@.take(i as int)),
                decreases outcomes.len() - i,
            {
                proof {
                    assert(outcomes@.take(i + 1).drop_last() =~= outcomes@.take(i as int));
                    assert(outcomes@.take(i + 1).last() == outcomes@[i as int]);
                }
                match outcomes[i].event {
                    Some(event) => {
                        events.push(event);
                    },
                    None => {},
                }
                i += 1;
            }
            assert(outcomes@.take(outcomes@.len() as int) =~= outcomes@);
        },
    }
    events
}

/// The steps that a round's outcomes record.
pub open spec fn steps_of<E>(outcomes: Seq<Outcome<E>>) -> Seq<Step> {
    Seq::new(
        outcomes.len(),
        |i: int| Step { account: outcomes[i].pubkey, verdict: outcomes[i].evaluation.verdict() },
    )
}

/// `round` is what a round over `accounts` comes to, and `after` is the set of liquidatable
/// accounts that it leaves.
///
/// The round fails as a whole, and changes nothing, exactly where the record of the group or
/// of the cache cannot be had. Otherwise every account has its outcome, in order, whatever
/// became of the others: each is judged on what the mirror holds, and the set follows the
/// verdicts one by one.
pub open spec fn round_of<E, H: Fn(&HealthQuery) -> Result<i128, E>>(
    ledger: Ledger,
    layout: Layout,
    group_id: Pubkey,
    cache_id: Pubkey,
    accounts: Seq<Pubkey>,
    before: Set<Pubkey>,
    health: H,
    round: Result<Vec<Outcome<E>>, RoundError>,
    after: Set<Pubkey>,
) -> bool {
    match round {
        Err(e) => round_failure(ledger, layout, group_id, cache_id) == Some(e) && after == before,
        Ok(outcomes) => {
            &&& round_failure(ledger, layout, group_id, cache_id) is None
            &&& outcomes@.len() == accounts.len()
            &&& forall|i: int|
                0 <= i < accounts.len() ==> (#[trigger] outcomes@[i]).pubkey == accounts[i]
            &&& forall|i: int|
                0 <= i < accounts.len() ==> evaluated(
                    ledger,
                    layout,
                    record_in(ledger, layout, DataType::MangoGroup, group_id)->Ok_0,
                    record_in(ledger, layout, DataType::MangoCache, cache_id)->Ok_0,
                    accounts[i],
                    health,
                    (#[trigger] outcomes@[i]).evaluation,
                )
            &&& forall|i: int|
                0 <= i < accounts.len() ==> (#[trigger] outcomes@[i]).event == event_at(
                    before,
                    steps_of(outcomes@),
                    i,
                )
            &&& after == set_after(before, steps_of(outcomes@), outcomes@.len() as int)
        },
    }
}

/// The first steps of a round come to the same whatever follows them.
pub proof fn lemma_set_after_prefix(before: Set<Pubkey>, steps: Seq<Step>, longer: Seq<Step>, n: int)
    requires
        0 <= n <= steps.len() <= longer.len(),
        forall|i: int| 0 <= i < steps.len() ==> steps[i] == longer[i],
    ensures
        set_after(before, longer, n) == set_after(before, steps, n),
    decreases n,
{
    if n > 0 {
        lemma_set_after_prefix(before, steps, longer, n - 1);
    }
}

/// Judges the given accounts one after the other, lets the set of liquidatable accounts
/// follow, and reports of each account what became of it and what is to be announced.
///
/// No account stands in the way of another: one whose records cannot be had, or whose health
/// cannot be computed, is reported as such and leaves the set as it was, and the round goes
/// on.
pub fn process_accounts<E, H>(
    chain_data: &ChainData,
    layout: &Layout,
    group_id: &Pubkey,
    cache_id: &Pubkey,
    accounts: &[Pubkey],
    currently_liquidatable: &mut PubkeySet,
    health: &H,
) -> (round: Result<Vec<Outcome<E>>, RoundError>) where H: Fn(&HealthQuery) -> Result<i128, E>
    requires
        chain_data.wf(),
        layout.wf(),
        old(currently_liquidatable).wf(),
        forall|query: &HealthQuery| call_requires(*health, (query,)),
    ensures
        final(currently_liquidatable).wf(),
        round_of(
            chain_data@,
            *layout,
            *group_id,
            *cache_id,
            accounts@,
            old(currently_liquidatable)@,
            *health,
            round,
            final(currently_liquidatable)@,
        ),
{
    let group = match load_mango_account_from_chain(
        DataType::MangoGroup,
        chain_data,
        group_id,
        layout,
    ) {
        Ok(group) => group,
        Err(e) => {
            return Err(RoundError::Group(e));
        },
    };
    let cache = match load_mango_account_from_chain(
        DataType::MangoCache,
        chain_data,
        cache_id,
        layout,
    ) {
        Ok(cache) => cache,
        Err(e) => {
            return Err(RoundError::Cache(e));
        },
    };
    let ghost before = currently_liquidatable@;
    let mut outcomes: Vec<Outcome<E>> = Vec::new();
    let mut i: usize = 0;
    while i < accounts.len()
        invariant
            chain_data.wf(),
            layout.wf(),
            currently_liquidatable.wf(),
            forall|query: &HealthQuery| call_requires(*health, (query,)),
            group@.len() == layout.mango_group.size,
            i <= accounts.len(),
            outcomes@.len() == i,
            forall|j: int| 0 <= j < i ==> (#[trigger] outcomes@[j]).pubkey == accounts@[j],
            forall|j: int|
                0 <= j < i ==> evaluated(
                    chain_data@,
                    *layout,
                    group@,
                    cache@,
                    accounts@[j],
                    *health,
                    (#[trigger] outcomes@[j]).evaluation,
                ),
            forall|j: int|
                0 <= j < i ==> (#[trigger] outcomes@[j]).event == event_at(
                    before,
                    steps_of(outcomes@),
                    j,
                ),
            currently_liquidatable@ == set_after(before, steps_of(outcomes@), i as int),
        decreases accounts.len() - i,
    {
        let pubkey = accounts[i];
        let evaluation = evaluate(chain_data, layout, group, cache, &pubkey, health);
        let event = match &evaluation {
            Evaluation::Computed(result) => handle_result(&pubkey, result, currently_liquidatable),
            Evaluation::NotLoaded(_) => None,
        };
        let ghost earlier = outcomes@;
        outcomes.push(Outcome { pubkey, evaluation, event });
        proof {
            let steps = steps_of(outcomes@);
            assert forall|j: int| 0 <= j <= i implies set_after(before, steps, j) == set_after(
                before,
                steps_of(earlier),
                j,
            ) by {
                lemma_set_after_prefix(before, steps_of(earlier), steps, j);
            }
            assert forall|j: int| 0 <= j < i implies (#[trigger] outcomes@[j]).event == event_at(
                before,
                steps,
                j,
            ) by {
                assert(outcomes@[j] == earlier[j]);
                assert(steps[j] == steps_of(earlier)[j]);
            }
            assert(steps[i as int].account == pubkey);
        }
        i += 1;
    }
    Ok(outcomes)
}

/// The account that an announcement is about.
pub open spec fn subject(event: LiquidatableInfo) -> Pubkey {
    match event {
        LiquidatableInfo::Start { account } => account,
        LiquidatableInfo::Stop { account } => account,
    }
}

/// Whether step `i` announces something about `account`.
pub open spec fn announces(before: Set<Pubkey>, steps: Seq<Step>, i: int, account: Pubkey) -> bool {
    event_at(before, steps, i) matches Some(event) && subject(event) == account
}

/// Membership goes by the last verdict. After a step that judged an account, the account is
/// in the set exactly if it was found liquidatable. A step leaves every account other than
/// its own as it was, and its own too where it has no verdict.
pub proof fn law_membership_follows_verdict(before: Set<Pubkey>, steps: Seq<Step>, i: int)
    requires
        0 <= i < steps.len(),
    ensures
        steps[i].verdict matches Some(liquidatable) ==> set_after(before, steps, i + 1).contains(
            steps[i].account,
        ) == liquidatable,
        steps[i].verdict is None ==> set_after(before, steps, i + 1) == set_after(before, steps, i),
        forall|other: Pubkey|
            other != steps[i].account ==> set_after(before, steps, i + 1).contains(other)
                == set_after(before, steps, i).contains(other),
        event_at(before, steps, i) matches Some(event) ==> subject(event) == steps[i].account,
        event_at(before, steps, i) is Some <==> (steps[i].verdict matches Some(liquidatable)
            && liquidatable != set_after(before, steps, i).contains(steps[i].account)),
        event_at(before, steps, i) matches Some(event) ==> (event is Start) == set_after(
            before,
            steps,
            i + 1,
        ).contains(steps[i].account),
{
}

/// Between two steps, the membership of an account changes only where something is
/// announced about it.
proof fn lemma_quiet_stretch(before: Set<Pubkey>, steps: Seq<Step>, i: int, j: int, account: Pubkey)
    requires
        0 <= i <= j <= steps.len(),
        forall|m: int| i <= m < j ==> !announces(before, steps, m, account),
    ensures
        set_after(before, steps, j).contains(account) == set_after(before, steps, i).contains(
            account,
        ),
    decreases j - i,
{
    if i < j {
        lemma_quiet_stretch(before, steps, i, j - 1, account);
        law_membership_follows_verdict(before, steps, j - 1);
        assert(!announces(before, steps, j - 1, account));
    }
}

/// Edge-triggering. Of two announcements about one account with none about it between
/// them, one is `Start` and the other `Stop`: nothing is announced twice in a row.
pub proof fn law_announcements_alternate(
    before: Set<Pubkey>,
    steps: Seq<Step>,
    i: int,
    j: int,
    account: Pubkey,
)
    requires
        0 <= i < j < steps.len(),
        announces(before, steps, i, account),
        announces(before, steps, j, account),
        forall|m: int| i < m < j ==> !announces(before, steps, m, account),
    ensures
        (event_at(before, steps, i)->0 is Start) != (event_at(before, steps, j)->0 is Start),
{
    law_membership_follows_verdict(before, steps, i);
    law_membership_follows_verdict(before, steps, j);
    lemma_quiet_stretch(before, steps, i + 1, j, account);
}

/// Isolation. A step without a verdict (an account whose records could not be had, or whose
/// health could not be computed) announces nothing, and the round comes to the same as if
/// that step had not been in it: the same set, and the same announcement at every other
/// step.
pub proof fn law_failed_step_is_idle(before: Set<Pubkey>, steps: Seq<Step>, failed: int)
    requires
        0 <= failed < steps.len(),
        steps[failed].verdict is None,
    ensures
        event_at(before, steps, failed) is None,
        set_after(before, steps.remove(failed), steps.len() - 1) == set_after(
            before,
            steps,
            steps.len() as int,
        ),
        forall|i: int|
            0 <= i < failed ==> event_at(before, steps.remove(failed), i) == event_at(
                before,
                steps,
                i,
            ),
        forall|i: int|
            failed < i < steps.len() ==> event_at(before, steps.remove(failed), i - 1) == event_at(
                before,
                steps,
                i,
            ),
{
    let rest = steps.remove(failed);
    assert forall|n: int| 0 <= n <= failed implies set_after(before, rest, n) == set_after(
        before,
        steps,
        n,
    ) by {
        lemma_without_failed_step(before, steps, failed, n);
    }
    assert forall|n: int| failed < n <= steps.len() implies set_after(before, rest, n - 1)
        == set_after(before, steps, n) by {
        lemma_without_failed_step(before, steps, failed, n);
    }
    assert forall|i: int| 0 <= i < failed implies event_at(before, rest, i) == event_at(
        before,
        steps,
        i,
    ) by {
        assert(rest[i] == steps[i]);
    }
    assert forall|i: int| failed < i < steps.len() implies event_at(before, rest, i - 1)
        == event_at(before, steps, i) by {
        assert(rest[i - 1] == steps[i]);
    }
}

/// The sets along a round with and without a step that has no verdict.
proof fn lemma_without_failed_step(before: Set<Pubkey>, steps: Seq<Step>, failed: int, n: int)
    requires
        0 <= failed < steps.len(),
        steps[failed].verdict is None,
        0 <= n <= steps.len(),
    ensures
        n <= failed ==> set_after(before, steps.remove(failed), n) == set_after(before, steps, n),
        n > failed ==> set_after(before, steps.remove(failed), n - 1) == set_after(
            before,
            steps,
            n,
        ),
    decreases n,
{
    let rest = steps.remove(failed);
    if n > 0 {
        lemma_without_failed_step(before, steps, failed, n - 1);
        if n <= failed {
            assert(rest[n - 1] == steps[n - 1]);
        } else if n > failed + 1 {
            assert(rest[n - 2] == steps[n - 1]);
        }
    }
}

} // verus!
