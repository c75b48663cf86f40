use crate::amount::{amount_of, parse_amount};
use crate::models::{ClientID, Command, Ledger, LedgerView, TxID};
use vstd::prelude::*;
use vstd::utf8::encode_utf8;

verus! {

/// Why the input could not be read.
#[derive(Clone, Copy, Debug, PartialEq, Eq, Structural)]
pub enum InputError {
    NoEnoughArgs,
    TooManyArgs,
    CannotOpenFile,
    IllformedRecord,
    InvalidTxType,
    InvalidTxID,
    InvalidClientID,
    InvalidAmount,
    /// A record would take a balance past what an amount can hold.
    BalanceOutOfRange,
}

/// Checks the command line: the program name and exactly one path. A single
/// entry lacks the path; any other count is too many.
pub fn parse_args(args: Vec<String>) -> (r: Result<Vec<String>, InputError>)
    ensures
        args.len() == 1 ==> r == Err::<Vec<String>, InputError>(InputError::NoEnoughArgs),
        args.len() == 2 ==> (r matches Ok(a) && a@ == args@),
        args.len() == 0 || args.len() > 2 ==> r == Err::<Vec<String>, InputError>(
            InputError::TooManyArgs,
        ),
{
    if args.len() == 1 {
        Err(InputError::NoEnoughArgs)
    } else if args.len() == 2 {
        Ok(args)
    } else {
        Err(InputError::TooManyArgs)
    }
}

pub open spec fn is_digit(b: u8) -> bool {
    48 <= b <= 57
}

/// The number that a string of decimal digits spells.
pub open spec fn digits_value(d: Seq<u8>) -> int
    decreases d.len(),
{
    if d.len() == 0 {
        0
    } else {
        10 * digits_value(d.drop_last()) + (d.last() - 48)
    }
}

/// The digits of an unsigned number, after an optional leading `+`.
pub open spec fn unsigned_digits(b: Seq<u8>) -> Seq<u8> {
    if b.len() > 0 && b[0] == 43 {
        b.drop_first()
    } else {
        b
    }
}

/// The `u32` that the text with UTF-8 bytes `b` denotes: an optional `+`,
/// then one or more decimal digits, with a value that fits.
pub open spec fn u32_of(b: Seq<u8>) -> Option<u32> {
    let d = unsigned_digits(b);
    if d.len() > 0 && (forall|i: int| 0 <= i < d.len() ==> is_digit(#[trigger] d[i])) && digits_value(
        d,
    ) <= u32::MAX {
        Some(digits_value(d) as u32)
    } else {
        None
    }
}

proof fn lemma_digits_value_nonneg(d: Seq<u8>)
    requires
        forall|i: int| 0 <= i < d.len() ==> is_digit(#[trigger] d[i]),
    ensures
        digits_value(d) >= 0,
    decreases d.len(),
{
    if d.len() > 0 {
        lemma_digits_value_nonneg(d.drop_last());
    }
}

/// Reads an unsigned 32-bit number written in decimal, such as `"42"`.
pub fn parse_u32(s: &str) -> (r: Option<u32>)
    ensures
        r == u32_of(encode_utf8(s@)),
{
    let b = s.as_bytes();
    let ghost bs = encode_utf8(s@);
    assert(b@ == bs);
    let n = b.len();
    let start: usize = if n > 0 && b[0] == 43 {
        1
    } else {
        0
    };
    let ghost d = unsigned_digits(bs);
    assert(d =~= bs.subrange(start as int, n as int));
    if start == n {
        return None;
    }
    let mut acc: u64 = 0;
    let mut over = false;
    let mut i: usize = start;
    while i < n
        invariant
            start <= i <= n,
            n == b@.len(),
            b@ == bs,
            bs == encode_utf8(s@),
            d == bs.subrange(start as int, n as int),
            d == unsigned_digits(bs),
            start < n,
            forall|k: int| start <= k < i ==> is_digit(#[trigger] bs[k]),
            !over ==> acc == digits_value(bs.subrange(start as int, i as int)) && acc
                <= u32::MAX,
            over ==> digits_value(bs.subrange(start as int, i as int)) > u32::MAX,
        decreases n - i,
    {
        let c = b[i];
        if c < 48 || c > 57 {
            assert(d[i - start] == c);
            assert(!is_digit(d[i - start]));
            return None;
        }
        let ghost pre = bs.subrange(start as int, i as int);
        let ghost next = bs.subrange(start as int, i + 1);
        assert(next.drop_last() =~= pre);
        assert(next.last() == c);
        proof {
            assert forall|k: int| 0 <= k < pre.len() implies is_digit(#[trigger] pre[k]) by {
                assert(pre[k] == bs[start + k]);
            }
            lemma_digits_value_nonneg(pre);
        }
        if !over {
            acc = acc * 10 + (c - 48) as u64;
            if acc > 4294967295 {
                over = true;
            }
        }
        i = i + 1;
    }
    assert(bs.subrange(start as int, n as int) == d);
    assert forall|k: int| 0 <= k < d.len() implies is_digit(#[trigger] d[k]) by {
        assert(d[k] == bs[start + k]);
    }
    if over {
        None
    } else {
        Some(acc as u32)
    }
}

/// Reads one record: its type, client id, transaction id and, for a
/// deposit or withdrawal, its amount. The ids are read before the type is
/// looked at.
pub open spec fn command_of(r: Seq<Seq<char>>) -> Result<Command, InputError> {
    if r.len() < 3 {
        Err(InputError::IllformedRecord)
    } else {
        match u32_of(encode_utf8(r[1])) {
            None => Err(InputError::InvalidClientID),
            Some(client) => match u32_of(encode_utf8(r[2])) {
                None => Err(InputError::InvalidTxID),
                Some(tx) => if r[0] == "deposit"@ || r[0] == "withdrawal"@ {
                    if r.len() < 4 {
                        Err(InputError::IllformedRecord)
                    } else {
                        match amount_of(r[3]) {
                            None => Err(InputError::InvalidAmount),
                            Some(amount) => if r[0] == "deposit"@ {
                                Ok(Command::Deposit { client, tx, amount })
                            } else {
                                Ok(Command::Withdrawal { client, tx, amount })
                            },
                        }
                    }
                } else if r[0] == "dispute"@ {
                    Ok(Command::Dispute { client, tx })
                } else if r[0] == "resolve"@ {
                    Ok(Command::Resolve { client, tx })
                } else if r[0] == "chargeback"@ {
                    Ok(Command::Chargeback { client, tx })
                } else {
                    Err(InputError::InvalidTxType)
                },
            },
        }
    }
}

/// The text of each field.
pub open spec fn fields_of(record: Seq<String>) -> Seq<Seq<char>> {
    record.map_values(|f: String| f@)
}

fn is_word(field: &String, word: &str) -> (r: bool)
    ensures
        r == (field@ == word@),
{
    let w: String = word.to_owned();
    *field == w
}

/// Reads one record of fields into a command.
pub fn parse_record(record: &Vec<String>) -> (r: Result<Command, InputError>)
    ensures
        r == command_of(fields_of(record@)),
{
    let ghost f = fields_of(record@);
    if record.len() < 3 {
        return Err(InputError::IllformedRecord);
    }
    assert(f[1] == record@[1]@ && f[2] == record@[2]@ && f[0] == record@[0]@);
    let client: ClientID = match parse_u32(record[1].as_str()) {
        Some(c) => c,
        None => return Err(InputError::InvalidClientID),
    };
    let tx: TxID = match parse_u32(record[2].as_str()) {
        Some(t) => t,
        None => return Err(InputError::InvalidTxID),
    };
    let kind = &record[0];
    proof {
        reveal_strlit("deposit");
        reveal_strlit("withdrawal");
        reveal_strlit("dispute");
        reveal_strlit("resolve");
        reveal_strlit("chargeback");
    }
    let deposit = is_word(kind, "deposit");
    if deposit || is_word(kind, "withdrawal") {
        if record.len() < 4 {
            return Err(InputError::IllformedRecord);
        }
        assert(f[3] == record@[3]@);
        match parse_amount(record[3].as_str()) {
            None => Err(InputError::InvalidAmount),
            Some(amount) => if deposit {
                Ok(Command::Deposit { client, tx, amount })
            } else {
                Ok(Command::Withdrawal { client, tx, amount })
            },
        }
    } else if is_word(kind, "dispute") {
        Ok(Command::Dispute { client, tx })
    } else if is_word(kind, "resolve") {
        Ok(Command::Resolve { client, tx })
    } else if is_word(kind, "chargeback") {
        Ok(Command::Chargeback { client, tx })
    } else {
        Err(InputError::InvalidTxType)
    }
}

/// The ledger after the records, applied in order, and the first error met,
/// if any; records after an error are not read.
pub open spec fn replay(v: LedgerView, records: Seq<Seq<Seq<char>>>) -> (LedgerView, Result<(), InputError>)
    decreases records.len(),
{
    if records.len() == 0 {
        (v, Ok(()))
    } else {
        match command_of(records[0]) {
            Err(e) => (v, Err(e)),
            Ok(cmd) => if v.in_range(cmd) {
                replay(v.step(cmd), records.drop_first())
            } else {
                (v, Err(InputError::BalanceOutOfRange))
            },
        }
    }
}

/// The text of each field of each record.
pub open spec fn records_of(records: Seq<Vec<String>>) -> Seq<Seq<Seq<char>>> {
    records.map_values(|r: Vec<String>| fields_of(r@))
}

/// Reads one record and applies it to the ledger.
pub fn handle_record(ledger: &mut Ledger, record: &Vec<String>) -> (r: Result<(), InputError>)
    requires
        old(ledger)@.wf(),
    ensures
        final(ledger)@.wf(),
        (final(ledger)@, r) == replay(old(ledger)@, seq![fields_of(record@)]),
{
    let ghost f = fields_of(record@);
    let ghost one = seq![f];
    assert(one[0] == f);
    assert(one.drop_first() =~= Seq::<Seq<Seq<char>>>::empty());
    let cmd = match parse_record(record) {
        Ok(c) => c,
        Err(e) => return Err(e),
    };
    let ghost before = ledger@;
    let r = ledger.apply(&cmd);
    assert(replay(before.step(cmd), one.drop_first()) == (
    before.step(cmd),
    Ok::<(), InputError>(()),
    ));
    r
}

/// Reads the records in order and applies each to the ledger, stopping at
/// the first that cannot be read or applied.
pub fn parse_csv(ledger: &mut Ledger, records: &Vec<Vec<String>>) -> (r: Result<(), InputError>)
    requires
        old(ledger)@.wf(),
    ensures
        final(ledger)@.wf(),
        (final(ledger)@, r) == replay(old(ledger)@, records_of(records@)),
{
    let ghost all = records_of(records@);
    assert(all.subrange(0, all.len() as int) =~= all);
    let mut i: usize = 0;
    while i < records.len()
        invariant
            0 <= i <= records@.len(),
            all == records_of(records@),
            ledger@.wf(),
            replay(old(ledger)@, all) == replay(ledger@, all.subrange(i as int, all.len() as int)),
        decreases records@.len() - i,
    {
        let ghost rest = all.subrange(i as int, all.len() as int);
        assert(rest[0] == fields_of(records@[i as int]@));
        assert(rest.drop_first() =~= all.subrange(i + 1, all.len() as int));
        let cmd = match parse_record(&records[i]) {
            Ok(c) => c,
            Err(e) => return Err(e),
        };
        match ledger.apply(&cmd) {
            Ok(()) => {},
            Err(e) => return Err(e),
        }
        i = i + 1;
    }
    assert(all.subrange(i as int, all.len() as int) =~= Seq::<Seq<Seq<char>>>::empty());
    Ok(())
}

} // verus!
