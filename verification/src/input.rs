//! Turning raw record fields into ledger entries.
//!
//! The caller hands over the already-separated fields of one record —
//! kind, client id, transaction id, and the optional amount — as bytes;
//! everything about their meaning is decided and verified here.

use crate::ledger::Entry;
use crate::ledger::EntryType;
use crate::ledger::LedgerError;
use crate::numfmt::all_digits;
use crate::numfmt::digits_val;
use crate::numfmt::parse_amount;
use crate::numfmt::parse_uint;
use crate::numfmt::unsigned_value;
use vstd::prelude::*;

verus! {

/// The lowercase name of each entry kind.
pub open spec fn spec_kind_name(t: EntryType) -> Seq<u8> {
    match t {
        EntryType::Deposit => seq![100u8, 101u8, 112u8, 111u8, 115u8, 105u8, 116u8],
        EntryType::Withdrawal => seq![
            119u8, 105u8, 116u8, 104u8, 100u8, 114u8, 97u8, 119u8, 97u8, 108u8,
        ],
        EntryType::Dispute => seq![100u8, 105u8, 115u8, 112u8, 117u8, 116u8, 101u8],
        EntryType::Resolve => seq![114u8, 101u8, 115u8, 111u8, 108u8, 118u8, 101u8],
        EntryType::Chargeback => seq![99u8, 104u8, 97u8, 114u8, 103u8, 101u8, 98u8, 97u8, 99u8, 107u8],
    }
}

/// The kind named by a byte string, if any.
pub open spec fn spec_kind_of(s: Seq<u8>) -> Option<EntryType> {
    if s == spec_kind_name(EntryType::Deposit) {
        Option::Some(EntryType::Deposit)
    } else if s == spec_kind_name(EntryType::Withdrawal) {
        Option::Some(EntryType::Withdrawal)
    } else if s == spec_kind_name(EntryType::Dispute) {
        Option::Some(EntryType::Dispute)
    } else if s == spec_kind_name(EntryType::Resolve) {
        Option::Some(EntryType::Resolve)
    } else if s == spec_kind_name(EntryType::Chargeback) {
        Option::Some(EntryType::Chargeback)
    } else {
        Option::None
    }
}

/// A valid id field: one or more digits denoting a value up to `max`.
pub open spec fn valid_id(s: Seq<u8>, max: int) -> bool {
    s.len() >= 1 && all_digits(s) && digits_val(s) <= max
}

/// A valid amount field: absent, empty, or an unsigned numeral whose
/// count of 1/10000 units fits in a `u64`.
pub open spec fn valid_amount_field(a: Option<Seq<u8>>) -> bool {
    match a {
        Option::None => true,
        Option::Some(s) => s.len() == 0 || (unsigned_value(s) matches Option::Some(n) && n
            <= u64::MAX),
    }
}

/// Recognise an entry kind name.
pub fn parse_kind(s: &[u8]) -> (r: Option<EntryType>)
    ensures
        r == spec_kind_of(s@),
{
    if s.len() == 7 && s[0] == 100 && s[1] == 101 && s[2] == 112 && s[3] == 111 && s[4] == 115
        && s[5] == 105 && s[6] == 116 {
        proof {
            assert(s@ =~= spec_kind_name(EntryType::Deposit));
        }
        return Option::Some(EntryType::Deposit);
    }
    if s.len() == 10 && s[0] == 119 && s[1] == 105 && s[2] == 116 && s[3] == 104 && s[4] == 100
        && s[5] == 114 && s[6] == 97 && s[7] == 119 && s[8] == 97 && s[9] == 108 {
        proof {
            assert(s@ =~= spec_kind_name(EntryType::Withdrawal));
        }
        return Option::Some(EntryType::Withdrawal);
    }
    if s.len() == 7 && s[0] == 100 && s[1] == 105 && s[2] == 115 && s[3] == 112 && s[4] == 117
        && s[5] == 116 && s[6] == 101 {
        proof {
            assert(s@ =~= spec_kind_name(EntryType::Dispute));
        }
        return Option::Some(EntryType::Dispute);
    }
    if s.len() == 7 && s[0] == 114 && s[1] == 101 && s[2] == 115 && s[3] == 111 && s[4] == 108
        && s[5] == 118 && s[6] == 101 {
        proof {
            assert(s@ =~= spec_kind_name(EntryType::Resolve));
        }
        return Option::Some(EntryType::Resolve);
    }
    if s.len() == 10 && s[0] == 99 && s[1] == 104 && s[2] == 97 && s[3] == 114 && s[4] == 103
        && s[5] == 101 && s[6] == 98 && s[7] == 97 && s[8] == 99 && s[9] == 107 {
        proof {
            assert(s@ =~= spec_kind_name(EntryType::Chargeback));
        }
        return Option::Some(EntryType::Chargeback);
    }
    proof {
        assert(s@ != spec_kind_name(EntryType::Deposit));
        assert(s@ != spec_kind_name(EntryType::Withdrawal));
        assert(s@ != spec_kind_name(EntryType::Dispute));
        assert(s@ != spec_kind_name(EntryType::Resolve));
        assert(s@ != spec_kind_name(EntryType::Chargeback));
    }
    Option::None
}

/// Build one entry from the fields of a record. Succeeds exactly when
/// the kind is one of the five names, both ids are in range, and the
/// amount — if present and non-empty — is a valid unsigned numeral; any
/// failure is a malformed entry.
pub fn parse_entry(typ: &[u8], client: &[u8], tx: &[u8], amount: Option<&[u8]>) -> (r: Result<
    Entry,
    LedgerError,
>)
    ensures
        r is Ok <==> (spec_kind_of(typ@) is Some && valid_id(client@, u16::MAX as int) && valid_id(
            tx@,
            u32::MAX as int,
        ) && valid_amount_field(
            match amount {
                Option::Some(ab) => Option::Some(ab@),
                Option::None => Option::None,
            },
        )),
        r matches Result::Ok(e) ==> {
            &&& spec_kind_of(typ@) == Option::Some(e.typ)
            &&& digits_val(client@) == e.client as int
            &&& digits_val(tx@) == e.id as int
            &&& match amount {
                Option::Some(ab) => if ab@.len() == 0 {
                    e.amount is None
                } else {
                    e.amount matches Option::Some(x) && unsigned_value(ab@) == Option::Some(
                        x as int,
                    )
                },
                Option::None => e.amount is None,
            }
        },
        r is Err ==> r == Result::<Entry, LedgerError>::Err(LedgerError::MalformedEntry),
{
    let k = match parse_kind(typ) {
        Option::Some(k) => k,
        Option::None => {
            return Result::Err(LedgerError::MalformedEntry);
        },
    };
    let c64 = match parse_uint(client) {
        Option::Some(x) => x,
        Option::None => {
            return Result::Err(LedgerError::MalformedEntry);
        },
    };
    if c64 > u16::MAX as u64 {
        return Result::Err(LedgerError::MalformedEntry);
    }
    let t64 = match parse_uint(tx) {
        Option::Some(x) => x,
        Option::None => {
            return Result::Err(LedgerError::MalformedEntry);
        },
    };
    if t64 > u32::MAX as u64 {
        return Result::Err(LedgerError::MalformedEntry);
    }
    let amt: Option<u64> = match amount {
        Option::Some(ab) => if ab.len() == 0 {
            Option::None
        } else {
            match parse_amount(ab) {
                Option::Some(x) => Option::Some(x),
                Option::None => {
                    return Result::Err(LedgerError::MalformedEntry);
                },
            }
        },
        Option::None => Option::None,
    };
    Result::Ok(Entry { typ: k, client: c64 as u16, id: t64 as u32, amount: amt })
}

} // verus!
