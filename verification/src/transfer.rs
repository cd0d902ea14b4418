//! Deciding whether a transaction record shows a transfer: a native balance or
//! a token balance that is larger after the transaction than before it.

use vstd::prelude::*;
use crate::decimal::{decimal_u64, parse_u64};
use crate::error::{first_error, is_first_error, lemma_first_error_none, Field, FilterError};
use crate::json::{models, Json, JsonModel};

verus! {

/// The two kinds of balance that are compared before and after a transaction.
#[derive(Clone, Copy, Debug, PartialEq, Eq, Structural)]
pub enum Reading {
    /// Native balances: the elements of `meta.preBalances` and
    /// `meta.postBalances`, unsigned integers.
    Balances,
    /// Token amounts: `uiTokenAmount.amount` of the entries of
    /// `meta.preTokenBalances` and `meta.postTokenBalances`, decimal strings.
    Amounts,
}

/// What a transaction record holds under `meta` and, inside that, under `name`.
pub open spec fn meta_field(tx: JsonModel, name: Seq<char>) -> JsonModel {
    tx.field("meta"@).field(name)
}

/// The elements of an array that has to be there.
pub open spec fn required_array(value: JsonModel, field: Field) -> Result<
    Seq<JsonModel>,
    FilterError,
> {
    match value {
        JsonModel::Null => Err(FilterError::MissingField(field)),
        JsonModel::Array(items) => Ok(items),
        _ => Err(FilterError::TypeMismatch(field)),
    }
}

/// The native balances before and after, read from one position of
/// `meta.preBalances` and `meta.postBalances`.
pub open spec fn balance_pair(pre: JsonModel, post: JsonModel) -> Result<(u64, u64), FilterError> {
    match pre {
        JsonModel::Unsigned(before) => match post {
            JsonModel::Unsigned(after) => Ok((before, after)),
            _ => Err(FilterError::TypeMismatch(Field::PostBalances)),
        },
        _ => Err(FilterError::TypeMismatch(Field::PreBalances)),
    }
}

/// The text of a token balance's `uiTokenAmount.amount`.
pub open spec fn amount_text(entry: JsonModel, field: Field) -> Result<Seq<char>, FilterError> {
    match entry.field("uiTokenAmount"@).field("amount"@) {
        JsonModel::Null => Err(FilterError::MissingField(field)),
        JsonModel::Text(text) => Ok(text),
        _ => Err(FilterError::TypeMismatch(field)),
    }
}

/// The token amounts before and after, read from one position of
/// `meta.preTokenBalances` and `meta.postTokenBalances`. Both amounts have to
/// be strings before either is read as a number.
pub open spec fn amount_pair(pre: JsonModel, post: JsonModel) -> Result<(u64, u64), FilterError> {
    match amount_text(pre, Field::PreTokenAmount) {
        Err(e) => Err(e),
        Ok(before) => match amount_text(post, Field::PostTokenAmount) {
            Err(e) => Err(e),
            Ok(after) => match (decimal_u64(before), decimal_u64(after)) {
                (Some(b), Some(a)) => Ok((b, a)),
                _ => Err(FilterError::ParseError),
            },
        },
    }
}

/// The numbers before and after that one position of the two arrays holds.
pub open spec fn pair_of(reading: Reading, pre: JsonModel, post: JsonModel) -> Result<
    (u64, u64),
    FilterError,
> {
    match reading {
        Reading::Balances => balance_pair(pre, post),
        Reading::Amounts => amount_pair(pre, post),
    }
}

/// Position by position, the numbers before and after at the positions that
/// `post` has.
pub open spec fn pairs_of(reading: Reading, pre: Seq<JsonModel>, post: Seq<JsonModel>) -> Seq<
    Result<(u64, u64), FilterError>,
> {
    Seq::new(post.len(), |i: int| pair_of(reading, pre[i], post[i]))
}

/// The pair was read and its second number is the larger one.
pub open spec fn grew(pair: Result<(u64, u64), FilterError>) -> bool {
    pair matches Ok((before, after)) && before < after
}

/// Every pair could be read.
pub open spec fn all_read(pairs: Seq<Result<(u64, u64), FilterError>>) -> bool {
    forall|i: int| 0 <= i < pairs.len() ==> (#[trigger] pairs[i]) is Ok
}

/// Some pair grew.
pub open spec fn some_grew(pairs: Seq<Result<(u64, u64), FilterError>>) -> bool {
    exists|i: int| 0 <= i < pairs.len() && grew(#[trigger] pairs[i])
}

/// Whether some pair grew, provided that every pair could be read; otherwise
/// the failure of the first pair that could not.
pub open spec fn increase_among(pairs: Seq<Result<(u64, u64), FilterError>>) -> Result<
    bool,
    FilterError,
> {
    match first_error(pairs) {
        Some(e) => Err(e),
        None => Ok(some_grew(pairs)),
    }
}

/// The result of native-transfer detection on a transaction record.
pub open spec fn sol_transfer_outcome(tx: JsonModel) -> Result<bool, FilterError> {
    match required_array(meta_field(tx, "preBalances"@), Field::PreBalances) {
        Err(e) => Err(e),
        Ok(pre) => match required_array(meta_field(tx, "postBalances"@), Field::PostBalances) {
            Err(e) => Err(e),
            Ok(post) => if pre.len() != post.len() {
                Err(FilterError::LengthMismatch)
            } else {
                increase_among(pairs_of(Reading::Balances, pre, post))
            },
        },
    }
}

/// The result of token-transfer detection on a transaction record.
pub open spec fn token_transfer_outcome(tx: JsonModel) -> Result<bool, FilterError> {
    match required_array(meta_field(tx, "preTokenBalances"@), Field::PreTokenBalances) {
        Err(e) => Err(e),
        Ok(pre) => match required_array(
            meta_field(tx, "postTokenBalances"@),
            Field::PostTokenBalances,
        ) {
            Err(e) => Err(e),
            Ok(post) => if post.len() == 0 {
                Ok(false)
            } else if pre.len() < post.len() {
                Ok(true)
            } else {
                increase_among(pairs_of(Reading::Amounts, pre, post))
            },
        },
    }
}

/// Some position that both sequences cover holds a larger number in `post`
/// than in `pre`.
pub open spec fn any_increase(pre: Seq<u64>, post: Seq<u64>) -> bool {
    exists|i: int| 0 <= i < pre.len() && i < post.len() && pre[i] < post[i]
}

/// The numbers of an array whose elements are all unsigned integers.
pub open spec fn unsigned_array(value: JsonModel) -> Option<Seq<u64>> {
    match value {
        JsonModel::Array(items) => if forall|i: int|
            0 <= i < items.len() ==> (#[trigger] items[i]) is Unsigned {
            Some(Seq::new(items.len(), |i: int| items[i]->Unsigned_0))
        } else {
            None
        },
        _ => None,
    }
}

/// On two arrays of unsigned integers, native-transfer detection fails
/// exactly when their lengths differ, and otherwise finds a transfer exactly
/// when some balance grew.
pub proof fn lemma_balances_of_integers(tx: JsonModel)
    ensures
        unsigned_array(meta_field(tx, "preBalances"@)) matches Some(pre) ==> unsigned_array(
            meta_field(tx, "postBalances"@),
        ) matches Some(post) ==> sol_transfer_outcome(tx) == (if pre.len() == post.len() {
            Ok(any_increase(pre, post))
        } else {
            Err(FilterError::LengthMismatch)
        }),
{
    let pre_value = meta_field(tx, "preBalances"@);
    let post_value = meta_field(tx, "postBalances"@);
    if unsigned_array(pre_value) is Some && unsigned_array(post_value) is Some {
        let pre = unsigned_array(pre_value)->Some_0;
        let post = unsigned_array(post_value)->Some_0;
        if pre.len() == post.len() {
            let pairs = pairs_of(Reading::Balances, pre_value->Array_0, post_value->Array_0);
            assert forall|i: int| 0 <= i < pairs.len() implies (#[trigger] pairs[i]) == Ok::<
                (u64, u64),
                FilterError,
            >((pre[i], post[i])) by {
                assert(pre_value->Array_0[i] is Unsigned);
                assert(post_value->Array_0[i] is Unsigned);
            }
            lemma_first_error_none(pairs);
            if any_increase(pre, post) {
                let k = choose|k: int| 0 <= k < pre.len() && k < post.len() && pre[k] < post[k];
                assert(grew(pairs[k]));
            }
        }
    }
}

/// Detection finds an increase among pairs exactly when every pair could be
/// read and some pair grew.
pub proof fn lemma_increase_found(pairs: Seq<Result<(u64, u64), FilterError>>)
    ensures
        increase_among(pairs) == Ok::<bool, FilterError>(true) <==> all_read(pairs) && some_grew(
            pairs,
        ),
        increase_among(pairs) is Err <==> !all_read(pairs),
{
    lemma_first_error_none(pairs);
}

/// Looks up `meta.<name>` in a transaction record and takes it as an array.
fn array_under_meta<'a>(tx: &'a Json, name: &str, field: Field) -> (found: Result<
    &'a Vec<Json>,
    FilterError,
>)
    ensures
        required_array(meta_field(tx@, name@), field) == (match found {
            Ok(items) => Ok(models(items@)),
            Err(e) => Err(e),
        }),
{
    let value = match tx.get("meta") {
        Some(meta) => meta.get(name),
        None => None,
    };
    match value {
        None => Err(FilterError::MissingField(field)),
        Some(value) => {
            if value.is_null() {
                Err(FilterError::MissingField(field))
            } else {
                match value.as_array() {
                    Some(items) => Ok(items),
                    None => Err(FilterError::TypeMismatch(field)),
                }
            }
        },
    }
}

/// Looks up the text of `uiTokenAmount.amount` in a token balance entry.
fn text_of_amount<'a>(entry: &'a Json, field: Field) -> (text: Result<&'a str, FilterError>)
    ensures
        amount_text(entry@, field) == (match text {
            Ok(s) => Ok(s@),
            Err(e) => Err(e),
        }),
{
    let value = match entry.get("uiTokenAmount") {
        Some(amount) => amount.get("amount"),
        None => None,
    };
    match value {
        None => Err(FilterError::MissingField(field)),
        Some(value) => {
            if value.is_null() {
                Err(FilterError::MissingField(field))
            } else {
                match value.as_str() {
                    Some(s) => Ok(s),
                    None => Err(FilterError::TypeMismatch(field)),
                }
            }
        },
    }
}

/// Reads the numbers before and after at one position of the two arrays.
pub fn read_pair(reading: Reading, pre: &Json, post: &Json) -> (pair: Result<
    (u64, u64),
    FilterError,
>)
    ensures
        pair == pair_of(reading, pre@, post@),
{
    match reading {
        Reading::Balances => match pre.as_u64() {
            None => Err(FilterError::TypeMismatch(Field::PreBalances)),
            Some(before) => match post.as_u64() {
                None => Err(FilterError::TypeMismatch(Field::PostBalances)),
                Some(after) => Ok((before, after)),
            },
        },
        Reading::Amounts => {
            let before = match text_of_amount(pre, Field::PreTokenAmount) {
                Ok(text) => text,
                Err(e) => {
                    return Err(e);
                },
            };
            let after = match text_of_amount(post, Field::PostTokenAmount) {
                Ok(text) => text,
                Err(e) => {
                    return Err(e);
                },
            };
            match parse_u64(before) {
                None => Err(FilterError::ParseError),
                Some(b) => match parse_u64(after) {
                    None => Err(FilterError::ParseError),
                    Some(a) => Ok((b, a)),
                },
            }
        },
    }
}

/// Reads every pair that `post` has a position for, and says whether one of
/// them grew.
fn find_increase(reading: Reading, pre: &Vec<Json>, post: &Vec<Json>) -> (outcome: Result<
    bool,
    FilterError,
>)
    requires
        post.len() <= pre.len(),
    ensures
        outcome == increase_among(pairs_of(reading, models(pre@), models(post@))),
{
    let ghost pairs = pairs_of(reading, models(pre@), models(post@));
    let mut found: bool = false;
    let mut i: usize = 0;
    while i < post.len()
        invariant
            0 <= i <= post.len() <= pre.len(),
            pairs == pairs_of(reading, models(pre@), models(post@)),
            forall|j: int| 0 <= j < i ==> (#[trigger] pairs[j]) is Ok,
            found == (exists|j: int| 0 <= j < i && grew(#[trigger] pairs[j])),
        decreases post.len() - i,
    {
        match read_pair(reading, &pre[i], &post[i]) {
            Err(e) => {
                assert(is_first_error(pairs, i as int));
                return Err(e);
            },
            Ok((before, after)) => {
                if before < after {
                    assert(grew(pairs[i as int]));
                    found = true;
                }
            },
        }
        i += 1;
    }
    proof {
        lemma_first_error_none(pairs);
    }
    Ok(found)
}

/// Detects a native transfer: some account's balance in `meta.postBalances`
/// is larger than at the same position in `meta.preBalances`.
///
/// Both arrays are required, of equal length, and made of unsigned integers
/// only; anything else is an error, whatever the other elements hold.
pub fn has_sol_transfer(tx: &Json) -> (outcome: Result<bool, FilterError>)
    ensures
        outcome == sol_transfer_outcome(tx@),
        unsigned_array(meta_field(tx@, "preBalances"@)) matches Some(pre) ==> unsigned_array(
            meta_field(tx@, "postBalances"@),
        ) matches Some(post) ==> outcome == (if pre.len() == post.len() {
            Ok(any_increase(pre, post))
        } else {
            Err(FilterError::LengthMismatch)
        }),
{
    proof {
        lemma_balances_of_integers(tx@);
    }
    let pre = match array_under_meta(tx, "preBalances", Field::PreBalances) {
        Ok(items) => items,
        Err(e) => {
            return Err(e);
        },
    };
    let post = match array_under_meta(tx, "postBalances", Field::PostBalances) {
        Ok(items) => items,
        Err(e) => {
            return Err(e);
        },
    };
    if pre.len() != post.len() {
        return Err(FilterError::LengthMismatch);
    }
    find_increase(Reading::Balances, pre, post)
}

/// Detects a token transfer.
///
/// With no entry in `meta.postTokenBalances` there is none. With more entries
/// after than before there is one: a token account was created. Otherwise the
/// entries are paired by position, and there is one where an amount grew;
/// every pair has to hold two readable amounts, whether or not one grew.
pub fn has_token_transfer(tx: &Json) -> (outcome: Result<bool, FilterError>)
    ensures
        outcome == token_transfer_outcome(tx@),
        meta_field(tx@, "preTokenBalances"@) matches JsonModel::Array(pre) ==> meta_field(
            tx@,
            "postTokenBalances"@,
        ) matches JsonModel::Array(post) ==> {
            &&& post.len() == 0 ==> outcome == Ok::<bool, FilterError>(false)
            &&& pre.len() < post.len() ==> outcome == Ok::<bool, FilterError>(true)
            &&& post.len() <= pre.len() ==> (outcome == Ok::<bool, FilterError>(true) <==> all_read(
                pairs_of(Reading::Amounts, pre, post),
            ) && some_grew(pairs_of(Reading::Amounts, pre, post)))
        },
{
    let pre = match array_under_meta(tx, "preTokenBalances", Field::PreTokenBalances) {
        Ok(items) => items,
        Err(e) => {
            return Err(e);
        },
    };
    let post = match array_under_meta(tx, "postTokenBalances", Field::PostTokenBalances) {
        Ok(items) => items,
        Err(e) => {
            return Err(e);
        },
    };
    if post.len() == 0 {
        return Ok(false);
    }
    if pre.len() < post.len() {
        return Ok(true);
    }
    proof {
        lemma_increase_found(pairs_of(Reading::Amounts, models(pre@), models(post@)));
    }
    find_increase(Reading::Amounts, pre, post)
}

} // verus!
