//! Laws of the ledger, stated over its mathematical model.

use vstd::prelude::*;
use vstd::bytes::*;
use vstd::utf8::*;
use crate::block::BlockView;
use crate::codec::{parse_u64, u64_bytes};
use crate::ledger::{
    accepted, account_key, balance_at, block_effect, commit_result, genesis_block, head_key,
    open_result, persisted, tx_effect, txs_effect, LedgerView,
};
use crate::store::{apply_puts, lookup};
use crate::transaction::{coinbase_view, genesis_account, TransactionView, COINBASE_VALUE};

verus! {

/// The state after the commits of `blocks` in order, starting in `s`;
/// `written[i]` says whether the `i`-th call returned without error.
pub open spec fn run(s: LedgerView, blocks: Seq<BlockView>, written: Seq<bool>) -> LedgerView
    decreases blocks.len(),
{
    if blocks.len() == 0 || written.len() != blocks.len() {
        s
    } else {
        commit_result(
            run(s, blocks.drop_last(), written.drop_last()),
            blocks.last(),
            written.last(),
        )
    }
}

/// Whether the `i`-th commit of a run took effect.
pub open spec fn accepted_at(
    s: LedgerView,
    blocks: Seq<BlockView>,
    written: Seq<bool>,
    i: int,
) -> bool {
    accepted(run(s, blocks.take(i), written.take(i)), blocks[i], written[i])
}

/// A value decodes to what was encoded.
pub proof fn lemma_u64_round_trip(v: u64)
    ensures
        parse_u64(u64_bytes(v)) == Some(v),
{
    lemma_auto_spec_u64_to_from_le_bytes();
    assert(u64_bytes(v).subrange(0, 8) =~= u64_bytes(v));
}

/// Different accounts are stored under different keys.
pub proof fn lemma_account_keys_differ(a: Seq<char>, b: Seq<char>)
    requires
        a != b,
    ensures
        account_key(a) != account_key(b),
{
    broadcast use encode_utf8_decode_utf8;

    if account_key(a) == account_key(b) {
        assert(decode_utf8(encode_utf8(a)) == decode_utf8(encode_utf8(b)));
    }
}

/// Two writes applied in order are two updates of the map.
pub proof fn lemma_apply_two_puts(
    m: Map<Seq<u8>, Seq<u8>>,
    a: (Seq<u8>, Seq<u8>),
    b: (Seq<u8>, Seq<u8>),
)
    ensures
        apply_puts(m, seq![a, b]) == m.insert(a.0, a.1).insert(b.0, b.1),
{
    let puts = seq![a, b];
    assert(puts.drop_last() =~= seq![a]);
    assert(puts.drop_last().drop_last() =~= Seq::<(Seq<u8>, Seq<u8>)>::empty());
    reveal_with_fuel(apply_puts, 3);
}

/// After any run of commits the head is the hash of the last block that was
/// accepted, and where none was accepted the ledger is as it was.
pub proof fn lemma_head_follows_last_accepted(
    s: LedgerView,
    blocks: Seq<BlockView>,
    written: Seq<bool>,
)
    requires
        blocks.len() == written.len(),
    ensures
        (forall|i: int| 0 <= i < blocks.len() ==> !accepted_at(s, blocks, written, i)) ==> run(
            s,
            blocks,
            written,
        ) == s,
        forall|i: int|
            0 <= i < blocks.len() && accepted_at(s, blocks, written, i) && (forall|j: int|
                i < j < blocks.len() ==> !accepted_at(s, blocks, written, j)) ==> run(
                s,
                blocks,
                written,
            ).head == blocks[i].hash,
    decreases blocks.len(),
{
    if blocks.len() > 0 {
        let n = blocks.len() - 1;
        let front = blocks.drop_last();
        let front_written = written.drop_last();
        lemma_head_follows_last_accepted(s, front, front_written);
        assert(blocks.take(n) =~= front);
        assert(written.take(n) =~= front_written);
        assert forall|i: int| 0 <= i < n implies accepted_at(s, front, front_written, i)
            == accepted_at(s, blocks, written, i) by {
            assert(front.take(i) =~= blocks.take(i));
            assert(front_written.take(i) =~= written.take(i));
        }
        if accepted_at(s, blocks, written, n) {
        } else {
            assert(run(s, blocks, written) == run(s, front, front_written));
            assert forall|i: int|
                0 <= i < blocks.len() && accepted_at(s, blocks, written, i) && (forall|j: int|
                    i < j < blocks.len() ==> !accepted_at(s, blocks, written, j)) implies run(
                s,
                blocks,
                written,
            ).head == blocks[i].hash by {
                assert(i < n);
                assert(accepted_at(s, front, front_written, i));
                assert forall|j: int| i < j < front.len() implies !accepted_at(
                    s,
                    front,
                    front_written,
                    j,
                ) by {
                    assert(!accepted_at(s, blocks, written, j));
                }
            }
        }
    }
}

/// A block whose hash differs from its predecessor's takes effect at most
/// once: two commits of it in a row leave what one commit leaves.
pub proof fn lemma_no_double_apply(s: LedgerView, block: BlockView, first: bool, second: bool)
    requires
        block.hash != block.prev_hash,
    ensures
        commit_result(commit_result(s, block, first), block, second) == commit_result(
            s,
            block,
            first || second,
        ),
        accepted(s, block, first) ==> commit_result(commit_result(s, block, first), block, second)
            == commit_result(s, block, first),
{
}

/// A transfer between two different accounts keeps the sum of their balances
/// and leaves every other account alone; a transfer that the sender cannot
/// pay changes nothing.
pub proof fn lemma_transfer_conserves(m: Map<Seq<u8>, Seq<u8>>, tx: TransactionView)
    requires
        tx.from != tx.to,
        tx_effect(m, tx) is Ok,
    ensures
        ({
            let after = apply_puts(m, tx_effect(m, tx)->Ok_0);
            &&& balance_at(m, tx.from) is Some
            &&& balance_at(m, tx.from)->0 < tx.value ==> after == m
            &&& balance_at(m, tx.from)->0 >= tx.value ==> {
                &&& balance_at(m, tx.to) is Some
                &&& balance_at(after, tx.from) is Some
                &&& balance_at(after, tx.to) is Some
                &&& balance_at(after, tx.from)->0 + balance_at(after, tx.to)->0 == balance_at(
                    m,
                    tx.from,
                )->0 + balance_at(m, tx.to)->0
            }
            &&& forall|other: Seq<char>|
                other != tx.from && other != tx.to ==> lookup(after, #[trigger] account_key(other))
                    == lookup(m, account_key(other))
        }),
{
    let puts = tx_effect(m, tx)->Ok_0;
    let after = apply_puts(m, puts);
    let from = balance_at(m, tx.from)->0;
    let kf = account_key(tx.from);
    let kt = account_key(tx.to);
    lemma_account_keys_differ(tx.from, tx.to);
    if from >= tx.value {
        let to = balance_at(m, tx.to)->0;
        let new_from = u64_bytes((from - tx.value) as u64);
        let new_to = u64_bytes((to + tx.value) as u64);
        assert(puts =~= seq![(kf, new_from), (kt, new_to)]);
        lemma_apply_two_puts(m, (kf, new_from), (kt, new_to));
        assert(after == m.insert(kf, new_from).insert(kt, new_to));
        lemma_u64_round_trip((from - tx.value) as u64);
        lemma_u64_round_trip((to + tx.value) as u64);
        assert(lookup(after, kf) == Some(new_from));
        assert(lookup(after, kt) == Some(new_to));
        assert forall|other: Seq<char>| other != tx.from && other != tx.to implies lookup(
            after,
            #[trigger] account_key(other),
        ) == lookup(m, account_key(other)) by {
            lemma_account_keys_differ(other, tx.from);
            lemma_account_keys_differ(other, tx.to);
        }
    } else {
        assert(puts =~= Seq::<(Seq<u8>, Seq<u8>)>::empty());
        assert(after == m);
    }
}

/// What `account` counts for in a total: its balance, or nothing where the
/// stored value cannot be decoded.
pub open spec fn amount(m: Map<Seq<u8>, Seq<u8>>, account: Seq<char>) -> int {
    match balance_at(m, account) {
        Some(v) => v as int,
        None => 0,
    }
}

/// The sum of the balances of `accounts` in the store `m`.
pub open spec fn total(m: Map<Seq<u8>, Seq<u8>>, accounts: Seq<Seq<char>>) -> int
    decreases accounts.len(),
{
    if accounts.len() == 0 {
        0
    } else {
        total(m, accounts.drop_last()) + amount(m, accounts.last())
    }
}

/// Two stores that agree on every listed account have the same total.
pub proof fn lemma_total_of_equal_balances(
    m: Map<Seq<u8>, Seq<u8>>,
    after: Map<Seq<u8>, Seq<u8>>,
    accounts: Seq<Seq<char>>,
)
    requires
        forall|i: int| 0 <= i < accounts.len() ==> amount(after, accounts[i]) == amount(m, accounts[i]),
    ensures
        total(after, accounts) == total(m, accounts),
    decreases accounts.len(),
{
    if accounts.len() > 0 {
        lemma_total_of_equal_balances(m, after, accounts.drop_last());
    }
}

/// Moving `value` from one account to another changes a total by what
/// arrives in the listed accounts less what leaves them.
pub proof fn lemma_total_after_move(
    m: Map<Seq<u8>, Seq<u8>>,
    after: Map<Seq<u8>, Seq<u8>>,
    accounts: Seq<Seq<char>>,
    from: Seq<char>,
    to: Seq<char>,
    value: int,
)
    requires
        accounts.no_duplicates(),
        from != to,
        amount(after, from) == amount(m, from) - value,
        amount(after, to) == amount(m, to) + value,
        forall|i: int|
            0 <= i < accounts.len() && accounts[i] != from && accounts[i] != to ==> amount(
                after,
                accounts[i],
            ) == amount(m, accounts[i]),
    ensures
        total(after, accounts) == total(m, accounts) + (if accounts.contains(to) {
            value
        } else {
            0
        }) - (if accounts.contains(from) {
            value
        } else {
            0
        }),
    decreases accounts.len(),
{
    if accounts.len() > 0 {
        let n = accounts.len() - 1;
        let front = accounts.drop_last();
        let last = accounts.last();
        lemma_total_after_move(m, after, front, from, to, value);
        assert(!front.contains(last)) by {
            if front.contains(last) {
                let i = choose|i: int| 0 <= i < front.len() && front[i] == last;
                assert(accounts[i] == accounts[n]);
            }
        }
        assert forall|x: Seq<char>| accounts.contains(x) <==> front.contains(x) || x == last by {
            if accounts.contains(x) {
                let i = choose|i: int| 0 <= i < accounts.len() && accounts[i] == x;
                if i < n {
                    assert(front[i] == x);
                }
            }
            if front.contains(x) {
                let i = choose|i: int| 0 <= i < front.len() && front[i] == x;
                assert(accounts[i] == x);
            }
            if x == last {
                assert(accounts[n] == x);
            }
        }
    }
}

/// Conservation: a transfer between two different accounts of a set leaves
/// the set's total as it was, whether the sender can pay or not.
pub proof fn lemma_transfer_conserves_total(
    m: Map<Seq<u8>, Seq<u8>>,
    tx: TransactionView,
    accounts: Seq<Seq<char>>,
)
    requires
        tx.from != tx.to,
        tx_effect(m, tx) is Ok,
        accounts.no_duplicates(),
        accounts.contains(tx.from),
        accounts.contains(tx.to),
    ensures
        total(apply_puts(m, tx_effect(m, tx)->Ok_0), accounts) == total(m, accounts),
{
    let after = apply_puts(m, tx_effect(m, tx)->Ok_0);
    lemma_transfer_conserves(m, tx);
    if balance_at(m, tx.from)->0 >= tx.value {
        let from = balance_at(m, tx.from)->0;
        let to = balance_at(m, tx.to)->0;
        let puts = tx_effect(m, tx)->Ok_0;
        assert(puts =~= seq![puts[0], puts[1]]);
        lemma_apply_two_puts(m, puts[0], puts[1]);
        lemma_account_keys_differ(tx.from, tx.to);
        lemma_u64_round_trip((from - tx.value) as u64);
        lemma_u64_round_trip((to + tx.value) as u64);
        assert forall|i: int|
            0 <= i < accounts.len() && accounts[i] != tx.from && accounts[i] != tx.to implies amount(
            after,
            accounts[i],
        ) == amount(m, accounts[i]) by {
            assert(lookup(after, account_key(accounts[i])) == lookup(m, account_key(accounts[i])));
        }
        lemma_total_after_move(m, after, accounts, tx.from, tx.to, tx.value as int);
    }
}

/// Applying two runs of writes one after the other is applying them joined.
pub proof fn lemma_apply_puts_concat(
    m: Map<Seq<u8>, Seq<u8>>,
    a: Seq<(Seq<u8>, Seq<u8>)>,
    b: Seq<(Seq<u8>, Seq<u8>)>,
)
    ensures
        apply_puts(m, a + b) == apply_puts(apply_puts(m, a), b),
    decreases b.len(),
{
    if b.len() == 0 {
        assert(a + b =~= a);
    } else {
        lemma_apply_puts_concat(m, a, b.drop_last());
        assert((a + b).drop_last() =~= a + b.drop_last());
        assert((a + b).last() == b.last());
    }
}

/// Whether no account takes part in two of the transactions, or on both
/// sides of one.
pub open spec fn transfers_apart(txs: Seq<TransactionView>) -> bool {
    &&& forall|i: int| 0 <= i < txs.len() ==> (#[trigger] txs[i]).from != txs[i].to
    &&& forall|i: int, j: int|
        0 <= i < j < txs.len() ==> {
            &&& (#[trigger] txs[i]).from != (#[trigger] txs[j]).from
            &&& txs[i].from != txs[j].to
            &&& txs[i].to != txs[j].from
            &&& txs[i].to != txs[j].to
        }
}

/// Whether `account` takes part in none of the transactions.
pub open spec fn untouched(txs: Seq<TransactionView>, account: Seq<char>) -> bool {
    forall|i: int| 0 <= i < txs.len() ==> (#[trigger] txs[i]).from != account && txs[i].to != account
}

/// Whether `block` follows some block and moves value only among
/// `accounts`, each of which takes part in at most one of its transfers.
pub open spec fn transfers_among(block: BlockView, accounts: Seq<Seq<char>>) -> bool {
    &&& block.prev_hash.len() > 0
    &&& transfers_apart(block.transactions)
    &&& forall|i: int|
        0 <= i < block.transactions.len() ==> accounts.contains(
            (#[trigger] block.transactions[i]).from,
        ) && accounts.contains(block.transactions[i].to)
}

/// An account that takes part in none of the transactions keeps what is
/// stored for it.
pub proof fn lemma_untouched_account_keeps_balance(
    m: Map<Seq<u8>, Seq<u8>>,
    txs: Seq<TransactionView>,
    account: Seq<char>,
)
    requires
        txs_effect(m, txs) is Ok,
        untouched(txs, account),
    ensures
        lookup(apply_puts(m, txs_effect(m, txs)->Ok_0), account_key(account)) == lookup(
            m,
            account_key(account),
        ),
    decreases txs.len(),
{
    if txs.len() > 0 {
        let front = txs.drop_last();
        let tx = txs.last();
        assert forall|i: int| 0 <= i < front.len() implies (#[trigger] front[i]).from != account
            && front[i].to != account by {
            assert(front[i] == txs[i]);
        }
        lemma_untouched_account_keeps_balance(m, front, account);
        let before = txs_effect(m, front)->Ok_0;
        let moved = tx_effect(m, tx)->Ok_0;
        lemma_apply_puts_concat(m, before, moved);
        assert(tx == txs[txs.len() - 1]);
        lemma_account_keys_differ(account, tx.from);
        lemma_account_keys_differ(account, tx.to);
        if moved.len() > 0 {
            assert(moved =~= seq![moved[0], moved[1]]);
            lemma_apply_two_puts(apply_puts(m, before), moved[0], moved[1]);
        } else {
            assert(moved =~= Seq::<(Seq<u8>, Seq<u8>)>::empty());
        }
    }
}

/// Conservation within a batch: transactions in which every account takes
/// part at most once, all of them among the listed accounts, leave the
/// accounts' total as it was, whichever of them the senders can pay.
pub proof fn lemma_transfers_conserve_total(
    m: Map<Seq<u8>, Seq<u8>>,
    txs: Seq<TransactionView>,
    accounts: Seq<Seq<char>>,
)
    requires
        txs_effect(m, txs) is Ok,
        transfers_apart(txs),
        accounts.no_duplicates(),
        forall|i: int|
            0 <= i < txs.len() ==> accounts.contains((#[trigger] txs[i]).from) && accounts.contains(
                txs[i].to,
            ),
    ensures
        total(apply_puts(m, txs_effect(m, txs)->Ok_0), accounts) == total(m, accounts),
    decreases txs.len(),
{
    if txs.len() == 0 {
        assert(txs_effect(m, txs)->Ok_0 =~= Seq::<(Seq<u8>, Seq<u8>)>::empty());
    } else {
        let n = txs.len() - 1;
        let front = txs.drop_last();
        let tx = txs.last();
        assert(tx == txs[n]);
        assert forall|i: int| 0 <= i < front.len() implies front[i] == txs[i] by {}
        assert(transfers_apart(front)) by {
            assert forall|i: int| 0 <= i < front.len() implies (#[trigger] front[i]).from
                != front[i].to by {
                assert(front[i] == txs[i]);
            }
            assert forall|i: int, j: int| 0 <= i < j < front.len() implies {
                &&& (#[trigger] front[i]).from != (#[trigger] front[j]).from
                &&& front[i].from != front[j].to
                &&& front[i].to != front[j].from
                &&& front[i].to != front[j].to
            } by {
                assert(front[i] == txs[i] && front[j] == txs[j]);
            }
        }
        assert forall|i: int| 0 <= i < front.len() implies accounts.contains(
            (#[trigger] front[i]).from,
        ) && accounts.contains(front[i].to) by {
            assert(front[i] == txs[i]);
        }
        lemma_transfers_conserve_total(m, front, accounts);
        let before = txs_effect(m, front)->Ok_0;
        let moved = tx_effect(m, tx)->Ok_0;
        let mid = apply_puts(m, before);
        let after = apply_puts(m, before + moved);
        lemma_apply_puts_concat(m, before, moved);
        let from = balance_at(m, tx.from)->0;
        if from >= tx.value {
            let to = balance_at(m, tx.to)->0;
            assert(untouched(front, tx.from) && untouched(front, tx.to)) by {
                assert forall|i: int| 0 <= i < front.len() implies (#[trigger] front[i]).from
                    != tx.from && front[i].to != tx.from && front[i].from != tx.to && front[i].to
                    != tx.to by {
                    assert(front[i] == txs[i]);
                    assert(i < n);
                }
            }
            lemma_untouched_account_keeps_balance(m, front, tx.from);
            lemma_untouched_account_keeps_balance(m, front, tx.to);
            assert(moved =~= seq![moved[0], moved[1]]);
            lemma_apply_two_puts(mid, moved[0], moved[1]);
            lemma_account_keys_differ(tx.from, tx.to);
            lemma_u64_round_trip((from - tx.value) as u64);
            lemma_u64_round_trip((to + tx.value) as u64);
            assert(amount(after, tx.from) == amount(mid, tx.from) - tx.value);
            assert(amount(after, tx.to) == amount(mid, tx.to) + tx.value);
            assert forall|i: int|
                0 <= i < accounts.len() && accounts[i] != tx.from && accounts[i]
                    != tx.to implies amount(after, accounts[i]) == amount(mid, accounts[i]) by {
                lemma_account_keys_differ(accounts[i], tx.from);
                lemma_account_keys_differ(accounts[i], tx.to);
            }
            lemma_total_after_move(mid, after, accounts, tx.from, tx.to, tx.value as int);
        } else {
            assert(before + moved =~= before);
        }
    }
}

/// Conservation for a commit: a block whose transfers stay among a set of
/// accounts, each account in at most one of them, leaves the set's total as
/// it was, whatever becomes of the commit. No account of the set may share
/// the head's key.
pub proof fn lemma_commit_conserves_total(
    s: LedgerView,
    block: BlockView,
    written: bool,
    accounts: Seq<Seq<char>>,
)
    requires
        transfers_among(block, accounts),
        accounts.no_duplicates(),
        !accounts.contains("curr_hash"@),
    ensures
        total(commit_result(s, block, written).store, accounts) == total(s.store, accounts),
{
    if accepted(s, block, written) {
        let m = s.store;
        let moved = txs_effect(m, block.transactions)->Ok_0;
        let puts = block_effect(m, block)->Ok_0;
        let head = (head_key(), encode_utf8(block.hash));
        assert(puts =~= moved.push(head));
        assert(puts.drop_last() =~= moved);
        let mid = apply_puts(m, moved);
        let after = apply_puts(m, puts);
        assert(after == mid.insert(head.0, head.1));
        lemma_transfers_conserve_total(m, block.transactions, accounts);
        assert forall|i: int| 0 <= i < accounts.len() implies amount(after, accounts[i]) == amount(
            mid,
            accounts[i],
        ) by {
            lemma_account_keys_differ(accounts[i], "curr_hash"@);
        }
        lemma_total_of_equal_balances(mid, after, accounts);
    }
}

/// Conservation over a run: commits of such blocks, accepted or not, leave
/// the set's total as it was.
pub proof fn lemma_run_conserves_total(
    s: LedgerView,
    blocks: Seq<BlockView>,
    written: Seq<bool>,
    accounts: Seq<Seq<char>>,
)
    requires
        blocks.len() == written.len(),
        accounts.no_duplicates(),
        !accounts.contains("curr_hash"@),
        forall|i: int| 0 <= i < blocks.len() ==> transfers_among(#[trigger] blocks[i], accounts),
    ensures
        total(run(s, blocks, written).store, accounts) == total(s.store, accounts),
    decreases blocks.len(),
{
    if blocks.len() > 0 {
        let front = blocks.drop_last();
        assert forall|i: int| 0 <= i < front.len() implies transfers_among(
            #[trigger] front[i],
            accounts,
        ) by {
            assert(front[i] == blocks[i]);
        }
        lemma_run_conserves_total(s, front, written.drop_last(), accounts);
        assert(transfers_among(blocks[blocks.len() - 1], accounts));
        lemma_commit_conserves_total(
            run(s, front, written.drop_last()),
            blocks.last(),
            written.last(),
            accounts,
        );
    }
}

/// An account that was never written has balance `0`.
pub proof fn lemma_unwritten_balance_is_zero(m: Map<Seq<u8>, Seq<u8>>, account: Seq<char>)
    requires
        !m.contains_key(account_key(account)),
    ensures
        balance_at(m, account) == Some(0u64),
{
}

/// What a commit leaves is never in between: the state is the one before,
/// or the whole batch and the new head are in; and a head that was stored
/// stays stored.
pub proof fn lemma_commit_is_atomic(s: LedgerView, block: BlockView, written: bool)
    ensures
        !written ==> commit_result(s, block, written) == s,
        commit_result(s, block, written) == s || (block_effect(s.store, block) matches Ok(puts)
            && commit_result(s, block, written) == (LedgerView {
            head: block.hash,
            store: apply_puts(s.store, puts),
        })),
        persisted(s) ==> persisted(commit_result(s, block, written)),
{
    if accepted(s, block, written) {
        let puts = block_effect(s.store, block)->Ok_0;
        assert(puts.drop_last().len() + 1 == puts.len());
    }
}

/// A ledger started on an empty store stands at the genesis block's hash,
/// which depends on the timestamp alone, with the mint on the genesis
/// account and the head stored.
pub proof fn lemma_genesis_on_empty_store(timestamp: u64)
    ensures
        open_result(Map::empty(), timestamp) matches Ok(s) && s.head == genesis_block(
            timestamp,
        ).hash && persisted(s) && balance_at(s.store, genesis_account()) == Some(COINBASE_VALUE),
{
    let m = Map::<Seq<u8>, Seq<u8>>::empty();
    let block = genesis_block(timestamp);
    let txs = seq![coinbase_view()];
    assert(txs.drop_last() =~= Seq::<TransactionView>::empty());
    assert(txs.last() == coinbase_view());
    reveal_with_fuel(txs_effect, 2);
    assert(balance_at(m, coinbase_view().from) == Some(0u64));
    assert(tx_effect(m, coinbase_view()) == Ok::<Seq<(Seq<u8>, Seq<u8>)>, crate::ledger::LedgerError>(
        Seq::empty(),
    ));
    let mint = (account_key(genesis_account()), u64_bytes(COINBASE_VALUE));
    let head = (head_key(), encode_utf8(block.hash));
    let puts = block_effect(m, block)->Ok_0;
    assert(puts =~= seq![mint, head]);
    lemma_apply_two_puts(m, mint, head);
    lemma_u64_round_trip(COINBASE_VALUE);
    reveal_strlit("a");
    reveal_strlit("curr_hash");
    lemma_account_keys_differ("a"@, "curr_hash"@);
}

} // verus!
