//! Filtering a block response down to the transactions that moved a balance,
//! and rebuilding the response around them.

use vstd::prelude::*;
use crate::error::{first_error, is_first_error, lemma_first_error_none, FilterError};
use crate::json::{is_first_named, lemma_get_first, models, Json, JsonModel, Member};
use crate::transfer::{
    has_sol_transfer, has_token_transfer, sol_transfer_outcome, token_transfer_outcome,
};

verus! {

/// The result of classifying a transaction record: native detection first,
/// token detection only where no native transfer was found.
pub open spec fn transfer_outcome(tx: JsonModel) -> Result<bool, FilterError> {
    match sol_transfer_outcome(tx) {
        Err(e) => Err(e),
        Ok(true) => Ok(true),
        Ok(false) => token_transfer_outcome(tx),
    }
}

/// The transaction record shows a native or a token transfer.
pub open spec fn moves_balance(tx: JsonModel) -> bool {
    transfer_outcome(tx) == Ok::<bool, FilterError>(true)
}

/// `moves_balance` as a predicate on sequence elements.
pub open spec fn moving() -> spec_fn(JsonModel) -> bool {
    |tx: JsonModel| moves_balance(tx)
}

/// The classification of every transaction, in order.
pub open spec fn verdicts(txs: Seq<JsonModel>) -> Seq<Result<bool, FilterError>> {
    Seq::new(txs.len(), |i: int| transfer_outcome(txs[i]))
}

/// The response rebuilt around the transactions `kept`: `id` and `jsonrpc`
/// of the envelope, the five block fields of its result, each as it was found
/// (`null` where it was absent), and `kept` as the transactions.
pub open spec fn reassembled(block: JsonModel, kept: Seq<JsonModel>) -> JsonModel {
    let result = block.field("result"@);
    JsonModel::Object(
        seq![
            ("id"@, block.field("id"@)),
            ("jsonrpc"@, block.field("jsonrpc"@)),
            (
                "result"@,
                JsonModel::Object(
                    seq![
                        ("blockHeight"@, result.field("blockHeight"@)),
                        ("blockTime"@, result.field("blockTime"@)),
                        ("blockhash"@, result.field("blockhash"@)),
                        ("parentSlot"@, result.field("parentSlot"@)),
                        ("previousBlockhash"@, result.field("previousBlockhash"@)),
                        ("transactions"@, JsonModel::Array(kept)),
                    ],
                ),
            ),
        ],
    )
}

/// The result of filtering a block response.
pub open spec fn filter_outcome(block: JsonModel) -> Result<JsonModel, FilterError> {
    let result = block.field("result"@);
    let transactions = result.field("transactions"@);
    if result is Null {
        Err(FilterError::MissingResult)
    } else if transactions is Null {
        Err(FilterError::MissingTransactions)
    } else {
        match transactions {
            JsonModel::Array(txs) => match first_error(verdicts(txs)) {
                Some(e) => Err(e),
                None => Ok(reassembled(block, txs.filter(moving()))),
            },
            _ => Err(FilterError::TransactionsNotArray),
        }
    }
}

/// The transactions of a block response, where it holds an array of them.
pub open spec fn transactions_of(block: JsonModel) -> Seq<JsonModel> {
    block.field("result"@).field("transactions"@)->Array_0
}

/// `after` holds what `before` holds under `id` and `jsonrpc`, and in its
/// result under each of the five block fields; `null` counts as absent.
pub open spec fn same_envelope(before: JsonModel, after: JsonModel) -> bool {
    let old_result = before.field("result"@);
    let new_result = after.field("result"@);
    &&& after.field("id"@) == before.field("id"@)
    &&& after.field("jsonrpc"@) == before.field("jsonrpc"@)
    &&& new_result.field("blockHeight"@) == old_result.field("blockHeight"@)
    &&& new_result.field("blockTime"@) == old_result.field("blockTime"@)
    &&& new_result.field("blockhash"@) == old_result.field("blockhash"@)
    &&& new_result.field("parentSlot"@) == old_result.field("parentSlot"@)
    &&& new_result.field("previousBlockhash"@) == old_result.field("previousBlockhash"@)
}

/// A sequence whose elements all satisfy a predicate is its own filter.
pub proof fn lemma_filter_keeps_all<A>(s: Seq<A>, pred: spec_fn(A) -> bool)
    requires
        forall|i: int| 0 <= i < s.len() ==> pred(#[trigger] s[i]),
    ensures
        s.filter(pred) == s,
    decreases s.len(),
{
    reveal(Seq::filter);
    if s.len() > 0 {
        lemma_filter_keeps_all(s.drop_last(), pred);
        assert(s.drop_last().push(s.last()) =~= s);
    }
}

/// A sequence of which no element satisfies a predicate has an empty filter.
pub proof fn lemma_filter_keeps_none<A>(s: Seq<A>, pred: spec_fn(A) -> bool)
    requires
        forall|i: int| 0 <= i < s.len() ==> !pred(#[trigger] s[i]),
    ensures
        s.filter(pred) == Seq::<A>::empty(),
    decreases s.len(),
{
    reveal(Seq::filter);
    if s.len() > 0 {
        lemma_filter_keeps_none(s.drop_last(), pred);
    }
}

/// The positions of the elements of `s` that satisfy `pred`, in rising order.
pub open spec fn kept_positions<A>(s: Seq<A>, pred: spec_fn(A) -> bool) -> Seq<int>
    decreases s.len(),
{
    if s.len() == 0 {
        Seq::empty()
    } else {
        let earlier = kept_positions(s.drop_last(), pred);
        if pred(s.last()) {
            earlier.push(s.len() - 1)
        } else {
            earlier
        }
    }
}

/// A filter keeps the elements that satisfy the predicate, all of them, each
/// once, and in the order in which they stood: element `k` of the filter is
/// the element of `s` at the `k`-th position that satisfies the predicate.
pub proof fn law_filter_keeps_order<A>(s: Seq<A>, pred: spec_fn(A) -> bool)
    ensures
        kept_positions(s, pred).len() == s.filter(pred).len(),
        forall|k: int|
            0 <= k < s.filter(pred).len() ==> {
                let at = #[trigger] kept_positions(s, pred)[k];
                0 <= at < s.len() && pred(s[at]) && s.filter(pred)[k] == s[at]
            },
        forall|j: int, k: int|
            0 <= j < k < s.filter(pred).len() ==> kept_positions(s, pred)[j] < kept_positions(
                s,
                pred,
            )[k],
        forall|i: int|
            0 <= i < s.len() && pred(#[trigger] s[i]) ==> exists|k: int|
                0 <= k < s.filter(pred).len() && #[trigger] kept_positions(s, pred)[k] == i,
    decreases s.len(),
{
    reveal(Seq::filter);
    if s.len() > 0 {
        let shorter = s.drop_last();
        law_filter_keeps_order(shorter, pred);
        let positions = kept_positions(s, pred);
        let earlier = kept_positions(shorter, pred);
        assert(positions.len() == s.filter(pred).len());
        assert forall|i: int| 0 <= i < s.len() && pred(#[trigger] s[i]) implies exists|k: int|
            0 <= k < s.filter(pred).len() && #[trigger] positions[k] == i by {
            if i < s.len() - 1 {
                assert(pred(shorter[i]));
                let k = choose|k: int| 0 <= k < earlier.len() && #[trigger] earlier[k] == i;
                assert(positions[k] == i);
            } else {
                assert(positions[positions.len() - 1] == i);
            }
        }
        assert forall|k: int| 0 <= k < s.filter(pred).len() implies {
            let at = #[trigger] positions[k];
            0 <= at < s.len() && pred(s[at]) && s.filter(pred)[k] == s[at]
        } by {
            if k < earlier.len() {
                assert(positions[k] == earlier[k]);
                assert(shorter[earlier[k]] == s[earlier[k]]);
            }
        }
        assert forall|j: int, k: int| 0 <= j < k < s.filter(pred).len() implies positions[j]
            < positions[k] by {
            assert(positions[j] == earlier[j]);
            if k < earlier.len() {
                assert(positions[k] == earlier[k]);
            }
        }
    }
}

/// The lengths of the names that a rebuilt response uses; `blockTime` and
/// `blockhash`, of equal length, differ in their sixth letter.
pub proof fn lemma_names_differ()
    ensures
        "id"@.len() == 2,
        "jsonrpc"@.len() == 7,
        "result"@.len() == 6,
        "blockHeight"@.len() == 11,
        "blockTime"@.len() == 9,
        "blockhash"@.len() == 9,
        "parentSlot"@.len() == 10,
        "previousBlockhash"@.len() == 17,
        "transactions"@.len() == 12,
        "blockTime"@ != "blockhash"@,
{
    reveal_strlit("id");
    reveal_strlit("jsonrpc");
    reveal_strlit("result");
    reveal_strlit("blockHeight");
    reveal_strlit("blockTime");
    reveal_strlit("blockhash");
    reveal_strlit("parentSlot");
    reveal_strlit("previousBlockhash");
    reveal_strlit("transactions");
    assert("blockTime"@[5] != "blockhash"@[5]);
}

/// What a rebuilt response holds: the envelope fields of the block it was
/// built from, and the transactions it was built around.
pub proof fn lemma_reassembled(block: JsonModel, kept: Seq<JsonModel>)
    ensures
        same_envelope(block, reassembled(block, kept)),
        reassembled(block, kept).field("result"@) is Object,
        reassembled(block, kept).field("result"@).field("transactions"@) == JsonModel::Array(kept),
{
    lemma_names_differ();
    let outer = reassembled(block, kept)->Object_0;
    let inner = outer[2].1->Object_0;
    assert(outer.len() == 3 && inner.len() == 6);
    assert(outer[0].0 == "id"@ && outer[1].0 == "jsonrpc"@ && outer[2].0 == "result"@);
    assert(inner[0].0 == "blockHeight"@ && inner[1].0 == "blockTime"@ && inner[2].0
        == "blockhash"@);
    assert(inner[3].0 == "parentSlot"@ && inner[4].0 == "previousBlockhash"@ && inner[5].0
        == "transactions"@);
    assert(is_first_named(outer, "id"@, 0));
    assert(is_first_named(outer, "jsonrpc"@, 1));
    assert(is_first_named(outer, "result"@, 2));
    assert(is_first_named(inner, "blockHeight"@, 0));
    assert(is_first_named(inner, "blockTime"@, 1));
    assert(is_first_named(inner, "blockhash"@, 2));
    assert(is_first_named(inner, "parentSlot"@, 3));
    assert(is_first_named(inner, "previousBlockhash"@, 4));
    assert(is_first_named(inner, "transactions"@, 5));
    lemma_get_first(outer, "id"@, 0);
    lemma_get_first(outer, "jsonrpc"@, 1);
    lemma_get_first(outer, "result"@, 2);
    lemma_get_first(inner, "blockHeight"@, 0);
    lemma_get_first(inner, "blockTime"@, 1);
    lemma_get_first(inner, "blockhash"@, 2);
    lemma_get_first(inner, "parentSlot"@, 3);
    lemma_get_first(inner, "previousBlockhash"@, 4);
    lemma_get_first(inner, "transactions"@, 5);
}

/// What holds of every block response that filtering accepts: the envelope
/// is preserved, the transactions are those of the block that show a
/// transfer, in their order, and none are left where none shows one.
pub proof fn lemma_filtered(block: JsonModel)
    ensures
        filter_outcome(block) matches Ok(response) ==> {
            &&& same_envelope(block, response)
            &&& response.field("result"@).field("transactions"@) == JsonModel::Array(
                transactions_of(block).filter(moving()),
            )
            &&& (forall|i: int|
                0 <= i < transactions_of(block).len() ==> !moves_balance(
                    #[trigger] transactions_of(block)[i],
                )) ==> transactions_of(response) == Seq::<JsonModel>::empty()
        },
{
    if filter_outcome(block) is Ok {
        let txs = transactions_of(block);
        lemma_reassembled(block, txs.filter(moving()));
        if forall|i: int| 0 <= i < txs.len() ==> !moves_balance(#[trigger] txs[i]) {
            lemma_filter_keeps_none(txs, moving());
        }
    }
}

/// Filtering is idempotent: a response that filtering produced is accepted
/// by filtering and comes out unchanged.
pub proof fn law_filter_idempotent(block: JsonModel)
    ensures
        filter_outcome(block) matches Ok(response) ==> filter_outcome(response) == Ok::<
            JsonModel,
            FilterError,
        >(response),
{
    if filter_outcome(block) is Ok {
        let response = filter_outcome(block)->Ok_0;
        let kept = transactions_of(block).filter(moving());
        lemma_reassembled(block, kept);
        assert forall|i: int| 0 <= i < kept.len() implies moving()(#[trigger] kept[i]) by {
            transactions_of(block).lemma_filter_pred(moving(), i);
        }
        lemma_filter_keeps_all(kept, moving());
        assert forall|i: int| 0 <= i < kept.len() implies (#[trigger] verdicts(kept)[i]) is Ok by {
            assert(moving()(kept[i]));
        }
        lemma_first_error_none(verdicts(kept));
        lemma_reassembled(response, kept);
        assert(reassembled(response, kept) == response);
    }
}

/// Classifies a transaction record: whether it shows a native or a token
/// transfer.
pub fn has_transfer(tx: &Json) -> (outcome: Result<bool, FilterError>)
    ensures
        outcome == transfer_outcome(tx@),
{
    match has_sol_transfer(tx) {
        Err(e) => Err(e),
        Ok(true) => Ok(true),
        Ok(false) => has_token_transfer(tx),
    }
}

/// A filtered block response, with the counts that go with it.
#[derive(Debug, PartialEq)]
pub struct Filtered {
    /// The response: the envelope rebuilt around the retained transactions.
    pub response: Json,
    /// How many transactions the block held.
    pub considered: usize,
    /// How many of them were retained.
    pub retained: usize,
}

/// A copy of what `doc` holds under `name`, as a member of that name.
fn copy_member(doc: &Json, name: &str) -> (member: Member)
    ensures
        member@ == (name@, doc@.field(name@)),
{
    let value = match doc.get(name) {
        Some(found) => found.clone(),
        None => Json::Null,
    };
    Member { name: name.to_owned(), value }
}

/// Filters a block response: keeps, in their order, the transactions that
/// show a native or a token transfer, and rebuilds the response around them.
/// Also counts the transactions before and after.
///
/// Fails, with nothing kept, when the response has no result or no array of
/// transactions, or when any one transaction cannot be classified.
pub fn filter_block(block: &Json) -> (outcome: Result<Filtered, FilterError>)
    ensures
        filter_outcome(block@) == (match outcome {
            Ok(filtered) => Ok(filtered.response@),
            Err(e) => Err(e),
        }),
        outcome matches Ok(filtered) ==> {
            &&& same_envelope(block@, filtered.response@)
            &&& filtered.response@.field("result"@).field("transactions"@) == JsonModel::Array(
                transactions_of(block@).filter(moving()),
            )
            &&& filtered.considered == transactions_of(block@).len()
            &&& filtered.retained == transactions_of(block@).filter(moving()).len()
        },
{
    proof {
        lemma_filtered(block@);
    }
    let result = match block.get("result") {
        Some(result) => result,
        None => {
            return Err(FilterError::MissingResult);
        },
    };
    if result.is_null() {
        return Err(FilterError::MissingResult);
    }
    let transactions = match result.get("transactions") {
        Some(transactions) => transactions,
        None => {
            return Err(FilterError::MissingTransactions);
        },
    };
    if transactions.is_null() {
        return Err(FilterError::MissingTransactions);
    }
    let txs = match transactions.as_array() {
        Some(txs) => txs,
        None => {
            return Err(FilterError::TransactionsNotArray);
        },
    };
    let ghost all = models(txs@);
    let mut kept: Vec<Json> = Vec::new();
    let mut i: usize = 0;
    assert(all.take(0).filter(moving()) =~= Seq::<JsonModel>::empty()) by {
        reveal(Seq::filter);
    }
    while i < txs.len()
        invariant
            0 <= i <= txs.len(),
            all == models(txs@),
            !(block@.field("result"@) is Null),
            block@.field("result"@).field("transactions"@) == JsonModel::Array(all),
            forall|j: int| 0 <= j < i ==> (#[trigger] verdicts(all)[j]) is Ok,
            models(kept@) == all.take(i as int).filter(moving()),
        decreases txs.len() - i,
    {
        let ghost before = all.take(i as int);
        proof {
            assert(all.take(i + 1) =~= before.push(all[i as int]));
            before.lemma_filter_push(all[i as int], moving());
        }
        match has_transfer(&txs[i]) {
            Err(e) => {
                assert(is_first_error(verdicts(all), i as int));
                return Err(e);
            },
            Ok(true) => {
                let ghost earlier = models(kept@);
                kept.push(txs[i].clone());
                assert(models(kept@) =~= earlier.push(all[i as int]));
            },
            Ok(false) => {},
        }
        i += 1;
    }
    proof {
        lemma_first_error_none(verdicts(all));
        assert(all.take(i as int) =~= all);
    }
    let considered = txs.len();
    let retained = kept.len();
    let mut inner: Vec<Member> = Vec::new();
    inner.push(copy_member(result, "blockHeight"));
    inner.push(copy_member(result, "blockTime"));
    inner.push(copy_member(result, "blockhash"));
    inner.push(copy_member(result, "parentSlot"));
    inner.push(copy_member(result, "previousBlockhash"));
    inner.push(Member { name: "transactions".to_owned(), value: Json::Array(kept) });
    let mut outer: Vec<Member> = Vec::new();
    outer.push(copy_member(block, "id"));
    outer.push(copy_member(block, "jsonrpc"));
    outer.push(Member { name: "result".to_owned(), value: Json::Object(inner) });
    let response = Json::Object(outer);
    proof {
        let rebuilt = reassembled(block@, all.filter(moving()));
        let inner_built = rebuilt->Object_0[2].1->Object_0;
        assert(Json::Array(kept)@->Array_0 =~= models(kept@));
        assert(inner@[5]@ == inner_built[5]);
        assert(inner_built.len() == 6);
        assert(Json::Object(inner)@->Object_0 =~= inner_built);
        assert(outer@[2]@ == rebuilt->Object_0[2]);
        assert(response@->Object_0 =~= rebuilt->Object_0);
    }
    Ok(Filtered { response, considered, retained })
}

/// Filters a block response: keeps, in their order, the transactions that
/// show a native or a token transfer, and rebuilds the response around them.
pub fn filter_tx(block: &Json) -> (outcome: Result<Json, FilterError>)
    ensures
        filter_outcome(block@) == (match outcome {
            Ok(response) => Ok(response@),
            Err(e) => Err(e),
        }),
        outcome matches Ok(response) ==> {
            &&& same_envelope(block@, response@)
            &&& response@.field("result"@).field("transactions"@) == JsonModel::Array(
                transactions_of(block@).filter(moving()),
            )
            &&& (forall|i: int|
                0 <= i < transactions_of(block@).len() ==> !moves_balance(
                    #[trigger] transactions_of(block@)[i],
                )) ==> transactions_of(response@) == Seq::<JsonModel>::empty()
            &&& filter_outcome(response@) == Ok::<JsonModel, FilterError>(response@)
        },
{
    proof {
        lemma_filtered(block@);
        law_filter_idempotent(block@);
    }
    match filter_block(block) {
        Ok(filtered) => Ok(filtered.response),
        Err(e) => Err(e),
    }
}

} // verus!
