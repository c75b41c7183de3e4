//! The monitor itself: it takes the messages of the live stream and the snapshots one at a
//! time, keeps the mirror and the set of known margin accounts, and, once a first snapshot
//! is in, judges the accounts that a message touches.

use crate::account::{AccountSnapshot, AccountSnapshotData, Message, MessageView};
use crate::chain_data::ChainData;
use crate::ledger::Ledger;
use crate::liquidation::{
    announcements, process_accounts, round_announced, round_of, HealthQuery, LiquidatableInfo,
    Outcome, RoundError,
};
use crate::pubkey::Pubkey;
use crate::pubkey_set::PubkeySet;
use crate::records::{
    is_mango_account, is_mango_cache, mango_account_of, mango_cache_of, Layout,
};
use vstd::prelude::*;

verus! {

/// What the monitor is told of the protocol at the start: the program, the group and its
/// cache, and the layout of the records.
#[derive(Clone, Copy, Debug)]
pub struct Protocol {
    pub layout: Layout,
    pub mango_program_id: Pubkey,
    pub mango_group_id: Pubkey,
    pub mango_cache_id: Pubkey,
}

/// Where the monitor stands.
#[derive(Clone, Copy, Debug, PartialEq, Eq, Structural)]
pub enum Phase {
    /// No snapshot is in yet: nothing is judged.
    ColdStart,
    /// A first snapshot is in.
    Live,
}

/// What a message of the live stream led to: the round for the margin account that was
/// written, if one was, and then the round over all known margin accounts, if the cache was
/// written.
#[derive(Debug)]
pub struct Reaction<E> {
    pub account: Option<Result<Vec<Outcome<E>>, RoundError>>,
    pub sweep: Option<Result<Vec<Outcome<E>>, RoundError>>,
}

impl<E> Reaction<E> {
    /// What the message led to announce, in order: first what the round for the written
    /// account announces, then what the round over all known accounts announces.
    pub open spec fn announced(&self) -> Seq<LiquidatableInfo> {
        let first = match self.account {
            Some(round) => round_announced(round),
            None => Seq::empty(),
        };
        let second = match self.sweep {
            Some(round) => round_announced(round),
            None => Seq::empty(),
        };
        first + second
    }

    /// What the message led to announce, in order.
    pub fn events(&self) -> (events: Vec<LiquidatableInfo>)
        ensures
            events@ == self.announced(),
    {
        let mut events: Vec<LiquidatableInfo> = match &self.account {
            Some(round) => announcements(round),
            None => Vec::new(),
        };
        let ghost first = events@;
        match &self.sweep {
            Some(round) => {
                let mut more = announcements(round);
                events.append(&mut more);
            },
            None => {
                assert(first + Seq::<LiquidatableInfo>::empty() =~= first);
            },
        }
        events
    }
}

/// The known margin accounts once `pubkey` is known: a new one goes to the end.
pub open spec fn with_known(known: Seq<Pubkey>, pubkey: Pubkey) -> Seq<Pubkey> {
    if known.contains(pubkey) {
        known
    } else {
        known.push(pubkey)
    }
}

/// Whether a message writes a margin account of the group.
pub open spec fn writes_mango_account(protocol: Protocol, message: MessageView) -> bool {
    message matches MessageView::Account(write) && mango_account_of(
        write.account,
        protocol.mango_program_id,
        protocol.mango_group_id,
        protocol.layout,
    )
}

/// Whether a message writes the cache of the group.
pub open spec fn writes_mango_cache(protocol: Protocol, message: MessageView) -> bool {
    message matches MessageView::Account(write) && write.pubkey == protocol.mango_cache_id
        && mango_cache_of(write.account, protocol.mango_program_id, protocol.layout)
}

/// The known margin accounts after a message.
pub open spec fn known_after_message(
    known: Seq<Pubkey>,
    protocol: Protocol,
    message: MessageView,
) -> Seq<Pubkey> {
    match message {
        MessageView::Account(write) if writes_mango_account(protocol, message) => with_known(
            known,
            write.pubkey,
        ),
        _ => known,
    }
}

/// The known margin accounts after the first `n` accounts of a snapshot.
pub open spec fn known_after_snapshot(
    known: Seq<Pubkey>,
    protocol: Protocol,
    accounts: Seq<AccountSnapshotData>,
    n: int,
) -> Seq<Pubkey>
    decreases n,
{
    if n <= 0 {
        known
    } else {
        let before = known_after_snapshot(known, protocol, accounts, n - 1);
        if mango_account_of(
            accounts[n - 1].account@,
            protocol.mango_program_id,
            protocol.mango_group_id,
            protocol.layout,
        ) {
            with_known(before, accounts[n - 1].pubkey)
        } else {
            before
        }
    }
}

/// `reaction` is what the rounds that a message calls for come to: first the round for the
/// account that the message writes, which takes the set of liquidatable accounts from
/// `before` to `between`, then the round over the known margin accounts, which takes it from
/// `between` to `after`. A round that is not called for leaves the set as it is.
pub open spec fn rounds_of<E, H: Fn(&HealthQuery) -> Result<i128, E>>(
    ledger: Ledger,
    protocol: Protocol,
    message: MessageView,
    known: Seq<Pubkey>,
    before: Set<Pubkey>,
    health: H,
    reaction: Reaction<E>,
    between: Set<Pubkey>,
    after: Set<Pubkey>,
) -> bool {
    &&& match reaction.account {
        Some(round) => message matches MessageView::Account(write) && round_of(
            ledger,
            protocol.layout,
            protocol.mango_group_id,
            protocol.mango_cache_id,
            seq![write.pubkey],
            before,
            health,
            round,
            between,
        ),
        None => between == before,
    }
    &&& match reaction.sweep {
        Some(round) => round_of(
            ledger,
            protocol.layout,
            protocol.mango_group_id,
            protocol.mango_cache_id,
            known,
            between,
            health,
            round,
            after,
        ),
        None => after == between,
    }
}

/// The monitor.
///
/// It starts cold: until a first snapshot is in, messages fill the mirror and make margin
/// accounts known, and no account is judged. From the first snapshot on it is live.
pub struct Feed {
    protocol: Protocol,
    chain_data: ChainData,
    mango_accounts: PubkeySet,
    currently_liquidatable: PubkeySet,
    phase: Phase,
}

impl Feed {
    /// The monitor's parts are in order.
    pub closed spec fn wf(&self) -> bool {
        &&& self.protocol.layout.wf()
        &&& self.chain_data.wf()
        &&& self.mango_accounts.wf()
        &&& self.currently_liquidatable.wf()
    }

    /// What the monitor was told of the protocol.
    pub closed spec fn protocol(&self) -> Protocol {
        self.protocol
    }

    /// What the mirror holds.
    pub closed spec fn ledger(&self) -> Ledger {
        self.chain_data@
    }

    /// The known margin accounts, in the order in which they became known.
    pub closed spec fn known(&self) -> Seq<Pubkey> {
        self.mango_accounts.order()
    }

    /// The accounts that are liquidatable as far as the monitor has judged.
    pub closed spec fn liquidatable(&self) -> Set<Pubkey> {
        self.currently_liquidatable@
    }

    /// Where the monitor stands.
    pub closed spec fn spec_phase(&self) -> Phase {
        self.phase
    }

    /// Whether a first snapshot is in.
    pub open spec fn spec_is_live(&self) -> bool {
        self.spec_phase() == Phase::Live
    }

    /// A monitor that has seen nothing.
    pub fn new(protocol: Protocol) -> (feed: Feed)
        requires
            protocol.layout.wf(),
        ensures
            feed.wf(),
            feed.protocol() == protocol,
            feed.ledger() == Ledger::empty(),
            feed.known() == Seq::<Pubkey>::empty(),
            feed.liquidatable() == Set::<Pubkey>::empty(),
            feed.phase() == Phase::ColdStart,
    {
        Feed {
            protocol,
            chain_data: ChainData::new(),
            mango_accounts: PubkeySet::new(),
            currently_liquidatable: PubkeySet::new(),
            phase: Phase::ColdStart,
        }
    }

    /// Where the monitor stands.
    #[verifier::when_used_as_spec(spec_phase)]
    pub fn phase(&self) -> (phase: Phase)
        ensures
            phase == self.spec_phase(),
    {
        self.phase
    }

    /// Whether a first snapshot is in.
    #[verifier::when_used_as_spec(spec_is_live)]
    pub fn is_live(&self) -> (live: bool)
        ensures
            live == self.spec_is_live(),
    {
        match self.phase {
            Phase::ColdStart => false,
            Phase::Live => true,
        }
    }

    /// What the monitor was told of the protocol.
    pub fn protocol_settings(&self) -> (protocol: &Protocol)
        ensures
            *protocol == self.protocol(),
    {
        &self.protocol
    }

    /// The mirror.
    pub fn chain_data(&self) -> (chain_data: &ChainData)
        requires
            self.wf(),
        ensures
            chain_data.wf(),
            chain_data@ == self.ledger(),
    {
        &self.chain_data
    }

    /// The known margin accounts, in the order in which they became known.
    pub fn mango_accounts(&self) -> (accounts: &[Pubkey])
        ensures
            accounts@ == self.known(),
    {
        self.mango_accounts.as_slice()
    }

    /// Whether an account is liquidatable as far as the monitor has judged.
    pub fn is_liquidatable(&self, pubkey: &Pubkey) -> (liquidatable: bool)
        ensures
            liquidatable == self.liquidatable().contains(*pubkey),
    {
        self.currently_liquidatable.contains(pubkey)
    }

    /// Takes in a message of the live stream.
    ///
    /// The mirror takes the message in. A write of a margin account of the group makes the
    /// account known. While the monitor is cold that is all: nothing is judged and nothing
    /// announced. Once it is live, a write of a margin account has that account judged, and
    /// a write of the cache has every known margin account judged, in the order in which
    /// they became known.
    pub fn on_message<E, H>(&mut self, message: Message, health: &H) -> (reaction: Reaction<
        E,
    >) where H: Fn(&HealthQuery) -> Result<i128, E>
        requires
            old(self).wf(),
            forall|query: &HealthQuery| call_requires(*health, (query,)),
        ensures
            final(self).wf(),
            final(self).protocol() == old(self).protocol(),
            final(self).phase() == old(self).phase(),
            final(self).ledger() == old(self).ledger().with_message(message@),
            final(self).known() == known_after_message(
                old(self).known(),
                old(self).protocol(),
                message@,
            ),
            !old(self).is_live() ==> reaction.account is None && reaction.sweep is None,
            !old(self).is_live() ==> reaction.announced() == Seq::<LiquidatableInfo>::empty(),
            !old(self).is_live() ==> final(self).liquidatable() == old(self).liquidatable(),
            old(self).is_live() ==> {
                &&& reaction.account is Some <==> writes_mango_account(
                    old(self).protocol(),
                    message@,
                )
                &&& reaction.sweep is Some <==> writes_mango_cache(old(self).protocol(), message@)
                &&& exists|between: Set<Pubkey>| #[trigger]
                    rounds_of(
                        final(self).ledger(),
                        old(self).protocol(),
                        message@,
                        final(self).known(),
                        old(self).liquidatable(),
                        *health,
                        reaction,
                        between,
                        final(self).liquidatable(),
                    )
            },
    {
        let mut written: Option<Pubkey> = None;
        let mut is_account = false;
        let mut is_cache = false;
        match &message {
            Message::Account(write) => {
                is_account = is_mango_account(
                    &write.account,
                    &self.protocol.mango_program_id,
                    &self.protocol.mango_group_id,
                    &self.protocol.layout,
                );
                is_cache = write.pubkey == self.protocol.mango_cache_id && is_mango_cache(
                    &write.account,
                    &self.protocol.mango_program_id,
                    &self.protocol.layout,
                );
                written = Some(write.pubkey);
            },
            _ => {},
        }
        self.chain_data.update_from_websocket(message);
        let mut reaction = Reaction { account: None, sweep: None };
        let ghost mut between = self.currently_liquidatable@;
        if is_account {
            let pubkey = written.unwrap();
            proof {
                old(self).mango_accounts.lemma_order();
            }
            self.mango_accounts.insert(pubkey);
            if self.is_live() {
                let mut accounts: Vec<Pubkey> = Vec::new();
                accounts.push(pubkey);
                let round = process_accounts(
                    &self.chain_data,
                    &self.protocol.layout,
                    &self.protocol.mango_group_id,
                    &self.protocol.mango_cache_id,
                    accounts.as_slice(),
                    &mut self.currently_liquidatable,
                    health,
                );
                proof {
                    assert(accounts@ =~= seq![pubkey]);
                    between = self.currently_liquidatable@;
                }
                reaction.account = Some(round);
            }
        }
        if is_cache && self.is_live() {
            let round = process_accounts(
                &self.chain_data,
                &self.protocol.layout,
                &self.protocol.mango_group_id,
                &self.protocol.mango_cache_id,
                self.mango_accounts.as_slice(),
                &mut self.currently_liquidatable,
                health,
            );
            reaction.sweep = Some(round);
        }
        proof {
            assert(rounds_of(
                self.ledger(),
                old(self).protocol(),
                message@,
                self.known(),
                old(self).liquidatable(),
                *health,
                reaction,
                between,
                self.liquidatable(),
            ));
        }
        reaction
    }

    /// Takes in a snapshot.
    ///
    /// Every margin account of the group in it becomes known, and the mirror takes the
    /// snapshot in. From now on the monitor is live. Nothing is judged and nothing announced.
    pub fn on_snapshot(&mut self, snapshot: AccountSnapshot)
        requires
            old(self).wf(),
        ensures
            final(self).wf(),
            final(self).protocol() == old(self).protocol(),
            final(self).phase() == Phase::Live,
            final(self).ledger() == old(self).ledger().with_writes(snapshot.writes()),
            final(self).known() == known_after_snapshot(
                old(self).known(),
                old(self).protocol(),
                snapshot.accounts@,
                snapshot.accounts@.len() as int,
            ),
            final(self).liquidatable() == old(self).liquidatable(),
    {
        let mut i: usize = 0;
        while i < snapshot.accounts.len()
            invariant
                i <= snapshot.accounts.len(),
                self.protocol == old(self).protocol,
                self.protocol.layout.wf(),
                self.mango_accounts.wf(),
                self.chain_data == old(self).chain_data,
                self.currently_liquidatable == old(self).currently_liquidatable,
                self.phase == old(self).phase,
                self.mango_accounts.order() == known_after_snapshot(
                    old(self).mango_accounts.order(),
                    self.protocol,
                    snapshot.accounts@,
                    i as int,
                ),
            decreases snapshot.accounts.len() - i,
        {
            let update = &snapshot.accounts[i];
            if is_mango_account(
                &update.account,
                &self.protocol.mango_program_id,
                &self.protocol.mango_group_id,
                &self.protocol.layout,
            ) {
                proof {
                    self.mango_accounts.lemma_order();
                }
                self.mango_accounts.insert(update.pubkey);
            }
            i += 1;
        }
        self.chain_data.update_from_snapshot(snapshot);
        self.phase = Phase::Live;
    }
}

} // verus!
