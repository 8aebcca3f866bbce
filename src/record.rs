//! Reading one input record (type, client, tx, amount) as a transaction.
use vstd::prelude::*;
use crate::amount::{amount_of_text, parse_amount};
use crate::transactions::{Error, Transaction, TransactionT};

verus! {

/// What `str::to_lowercase` makes of a string.
pub uninterp spec fn lower_of(s: Seq<char>) -> Seq<char>;

/// Relies on `str::to_lowercase`: the result depends on the characters
/// alone.
#[verifier::external_body]
fn lowercase(s: &str) -> (r: String)
    ensures
        r@ == lower_of(s@),
{
    s.to_lowercase()
}

/// The kind that a lowercase type name denotes.
pub open spec fn kind_of_name(name: Seq<char>) -> Option<TransactionT> {
    if name == "deposit"@ {
        Some(TransactionT::Deposit)
    } else if name == "withdrawal"@ {
        Some(TransactionT::Withdrawal)
    } else if name == "dispute"@ {
        Some(TransactionT::Dispute)
    } else if name == "resolve"@ {
        Some(TransactionT::Resolve)
    } else if name == "chargeback"@ {
        Some(TransactionT::Chargeback)
    } else {
        None
    }
}

fn same_text(a: &str, b: &str) -> (r: bool)
    ensures
        r == (a@ == b@),
{
    let n = a.unicode_len();
    if n != b.unicode_len() {
        return false;
    }
    let mut i: usize = 0;
    while i < n
        invariant
            n == a@.len(),
            n == b@.len(),
            i <= n,
            a@.take(i as int) == b@.take(i as int),
        decreases n - i,
    {
        if a.get_char(i) != b.get_char(i) {
            assert(a@[i as int] != b@[i as int]);
            return false;
        }
        assert(a@.take(i + 1) =~= a@.take(i as int).push(a@[i as int]));
        assert(b@.take(i + 1) =~= b@.take(i as int).push(b@[i as int]));
        i = i + 1;
    }
    assert(a@.take(n as int) =~= a@);
    assert(b@.take(n as int) =~= b@);
    true
}

/// The kind named by an already lowercase type name.
pub fn kind_from_lowercase(name: &str) -> (r: Option<TransactionT>)
    ensures
        r == kind_of_name(name@),
{
    if same_text(name, "deposit") {
        Some(TransactionT::Deposit)
    } else if same_text(name, "withdrawal") {
        Some(TransactionT::Withdrawal)
    } else if same_text(name, "dispute") {
        Some(TransactionT::Dispute)
    } else if same_text(name, "resolve") {
        Some(TransactionT::Resolve)
    } else if same_text(name, "chargeback") {
        Some(TransactionT::Chargeback)
    } else {
        None
    }
}

/// The kind named by a type name, in any letter case.
pub fn parse_kind(name: &str) -> (r: Option<TransactionT>)
    ensures
        r == kind_of_name(lower_of(name@)),
{
    let lower = lowercase(name);
    kind_from_lowercase(lower.as_str())
}

/// The transaction that a record with the given kind, ids and amount text
/// describes. Deposits and withdrawals need an amount; the other kinds
/// ignore it.
pub open spec fn record_of(
    kind: Option<TransactionT>,
    client: u16,
    tx: u32,
    amount: Option<Seq<char>>,
) -> Result<Transaction, Error> {
    match kind {
        None => Err(Error::MalformedRecord),
        Some(tt) => if tt is Deposit || tt is Withdrawal {
            match amount {
                Some(text) => match amount_of_text(text) {
                    Some(v) => Ok(Transaction { tt, client, tx, amount: Some(v) }),
                    None => Err(Error::MalformedRecord),
                },
                None => Err(Error::MalformedRecord),
            }
        } else {
            Ok(Transaction { tt, client, tx, amount: None })
        },
    }
}

pub open spec fn text_of(amount: Option<&str>) -> Option<Seq<char>> {
    match amount {
        Some(a) => Some(a@),
        None => None,
    }
}

/// Reads a record whose type name is already known: fails with
/// `MalformedRecord` where the kind is unknown, or where a deposit or
/// withdrawal lacks a readable amount.
pub fn record_from_kind(kind: Option<TransactionT>, client: u16, tx: u32, amount: Option<&str>) -> (r: Result<Transaction, Error>)
    ensures
        r == record_of(kind, client, tx, text_of(amount)),
        r matches Ok(t) ==> t.wf(),
{
    match kind {
        None => Err(Error::MalformedRecord),
        Some(tt) => match tt {
            TransactionT::Deposit | TransactionT::Withdrawal => match amount {
                Some(text) => match parse_amount(text) {
                    Some(v) => Ok(Transaction { tt, client, tx, amount: Some(v) }),
                    None => Err(Error::MalformedRecord),
                },
                None => Err(Error::MalformedRecord),
            },
            _ => Ok(Transaction { tt, client, tx, amount: None }),
        },
    }
}

/// Reads a record: the type name in any letter case, the client and
/// transaction ids, and the amount text if the record has one.
pub fn parse_record(kind: &str, client: u16, tx: u32, amount: Option<&str>) -> (r: Result<Transaction, Error>)
    ensures
        r == record_of(kind_of_name(lower_of(kind@)), client, tx, text_of(amount)),
        r matches Ok(t) ==> t.wf(),
{
    let k = parse_kind(kind);
    record_from_kind(k, client, tx, amount)
}

} // verus!
