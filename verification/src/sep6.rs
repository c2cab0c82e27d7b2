//! SEP-6 deposit and withdrawal service layer: normalises the raw responses of
//! different anchors into one canonical shape.

use vstd::prelude::*;

use crate::errors::{AnchorKitError, Error, ErrorCode};
use crate::text::{
    chars_eq_ignore_ascii_case, chars_of, char_is_ascii_alphanumeric, eq_ignore_ascii_case,
    is_ascii_alphanumeric,
};

verus! {

broadcast use vstd::string::group_string_axioms;

// ── Normalised response types ────────────────────────────────────────────────

/// Normalised status values across all SEP-6 anchors.
#[derive(Clone, Debug, PartialEq, Eq)]
pub enum TransactionStatus {
    Pending,
    Incomplete,
    PendingExternal,
    PendingAnchor,
    PendingTrust,
    PendingUser,
    Completed,
    Refunded,
    Expired,
    Error,
    Unknown(String),
}

/// The status named by a status string, for the strings that name one.
pub open spec fn known_status(s: Seq<char>) -> Option<TransactionStatus> {
    if s == "pending_external"@ {
        Some(TransactionStatus::PendingExternal)
    } else if s == "pending_anchor"@ {
        Some(TransactionStatus::PendingAnchor)
    } else if s == "pending_trust"@ {
        Some(TransactionStatus::PendingTrust)
    } else if s == "pending_user"@ || s == "pending_user_transfer_start"@ {
        Some(TransactionStatus::PendingUser)
    } else if s == "completed"@ {
        Some(TransactionStatus::Completed)
    } else if s == "refunded"@ {
        Some(TransactionStatus::Refunded)
    } else if s == "expired"@ {
        Some(TransactionStatus::Expired)
    } else if s == "incomplete"@ {
        Some(TransactionStatus::Incomplete)
    } else if s == "pending"@ {
        Some(TransactionStatus::Pending)
    } else {
        None
    }
}

/// `st` is what the status string `s` normalises to: the status it names, or
/// `Unknown` holding `s` itself.
pub open spec fn parses_to(s: Seq<char>, st: TransactionStatus) -> bool {
    match known_status(s) {
        Some(k) => st == k,
        None => st matches TransactionStatus::Unknown(u) && u@ == s,
    }
}

/// The canonical string of a status.
pub open spec fn status_text(st: TransactionStatus) -> Seq<char> {
    match st {
        TransactionStatus::Pending => "pending"@,
        TransactionStatus::Incomplete => "incomplete"@,
        TransactionStatus::PendingExternal => "pending_external"@,
        TransactionStatus::PendingAnchor => "pending_anchor"@,
        TransactionStatus::PendingTrust => "pending_trust"@,
        TransactionStatus::PendingUser => "pending_user"@,
        TransactionStatus::Completed => "completed"@,
        TransactionStatus::Refunded => "refunded"@,
        TransactionStatus::Expired => "expired"@,
        TransactionStatus::Error => "error"@,
        TransactionStatus::Unknown(s) => s@,
    }
}

fn chars_eq_str(cs: &[char], lit: &str) -> (r: bool)
    ensures
        r == (cs@ == lit@),
{
    let other = chars_of(lit);
    let n = cs.len();
    if n != other.len() {
        return false;
    }
    let mut i: usize = 0;
    while i < n
        invariant
            n == cs@.len(),
            n == other@.len(),
            other@ == lit@,
            i <= n,
            forall|k: int| 0 <= k < i ==> cs@[k] == other@[k],
        decreases n - i,
    {
        if cs[i] != other[i] {
            assert(cs@[i as int] != other@[i as int]);
            return false;
        }
        i = i + 1;
    }
    assert(cs@ =~= other@);
    true
}

impl TransactionStatus {
    /// Normalises an anchor's status string; strings that name no status are kept as
    /// `Unknown`.
    #[allow(clippy::should_implement_trait)]
    pub fn from_str(s: &str) -> (st: Self)
        ensures
            parses_to(s@, st),
    {
        let v = chars_of(s);
        let cs = v.as_slice();
        if chars_eq_str(cs, "pending_external") {
            TransactionStatus::PendingExternal
        } else if chars_eq_str(cs, "pending_anchor") {
            TransactionStatus::PendingAnchor
        } else if chars_eq_str(cs, "pending_trust") {
            TransactionStatus::PendingTrust
        } else if chars_eq_str(cs, "pending_user") || chars_eq_str(cs, "pending_user_transfer_start") {
            TransactionStatus::PendingUser
        } else if chars_eq_str(cs, "completed") {
            TransactionStatus::Completed
        } else if chars_eq_str(cs, "refunded") {
            TransactionStatus::Refunded
        } else if chars_eq_str(cs, "expired") {
            TransactionStatus::Expired
        } else if chars_eq_str(cs, "incomplete") {
            TransactionStatus::Incomplete
        } else if chars_eq_str(cs, "pending") {
            TransactionStatus::Pending
        } else {
            TransactionStatus::Unknown(s.to_owned())
        }
    }

    /// The canonical string of the status.
    pub fn as_str(&self) -> (s: &str)
        ensures
            s@ == status_text(*self),
    {
        match self {
            TransactionStatus::Pending => "pending",
            TransactionStatus::Incomplete => "incomplete",
            TransactionStatus::PendingExternal => "pending_external",
            TransactionStatus::PendingAnchor => "pending_anchor",
            TransactionStatus::PendingTrust => "pending_trust",
            TransactionStatus::PendingUser => "pending_user",
            TransactionStatus::Completed => "completed",
            TransactionStatus::Refunded => "refunded",
            TransactionStatus::Expired => "expired",
            TransactionStatus::Error => "error",
            TransactionStatus::Unknown(s) => s.as_str(),
        }
    }
}

/// Normalised response for a deposit initiation.
#[derive(Clone, Debug, PartialEq, Eq)]
pub struct DepositResponse {
    /// Unique transaction ID assigned by the anchor.
    pub transaction_id: String,
    /// How the user should send funds (e.g. bank account, address).
    pub how: String,
    /// Optional extra instructions from the anchor.
    pub extra_info: Option<String>,
    /// Minimum deposit amount (in asset units), if provided.
    pub min_amount: Option<u64>,
    /// Maximum deposit amount (in asset units), if provided.
    pub max_amount: Option<u64>,
    /// Fee charged for the deposit, if provided.
    pub fee_fixed: Option<u64>,
    /// Percentage fee in basis points, if provided (e.g. `150` = 1.50%).
    pub fee_percent: Option<u32>,
    /// Current status of the transaction.
    pub status: TransactionStatus,
}

/// Normalised response for a withdrawal initiation.
#[derive(Clone, Debug, PartialEq, Eq)]
pub struct WithdrawalResponse {
    /// Unique transaction ID assigned by the anchor.
    pub transaction_id: String,
    /// Stellar account the user should send funds to.
    pub account_id: String,
    /// Destination bank or wallet account for the off-chain withdrawal, if provided.
    pub dest_account_id: Option<String>,
    /// Optional memo to attach to the Stellar payment.
    pub memo: Option<String>,
    /// Optional memo type (`text`, `id`, `hash`).
    pub memo_type: Option<String>,
    /// Minimum withdrawal amount (in asset units), if provided.
    pub min_amount: Option<u64>,
    /// Maximum withdrawal amount (in asset units), if provided.
    pub max_amount: Option<u64>,
    /// Fee charged for the withdrawal, if provided.
    pub fee_fixed: Option<u64>,
    /// Percentage fee in basis points, if provided (e.g. `150` = 1.50%).
    pub fee_percent: Option<u32>,
    /// Current status of the transaction.
    pub status: TransactionStatus,
}

/// Normalised transaction status response.
#[derive(Clone, Debug, PartialEq, Eq)]
pub struct TransactionStatusResponse {
    pub transaction_id: String,
    pub kind: TransactionKind,
    pub status: TransactionStatus,
    /// Amount sent by the user (in asset units), if known.
    pub amount_in: Option<u64>,
    /// Amount received by the user after fees (in asset units), if known.
    pub amount_out: Option<u64>,
    /// Fee charged (in asset units), if known.
    pub amount_fee: Option<u64>,
    /// Human-readable message from the anchor, if any.
    pub message: Option<String>,
}

/// Whether the transaction is a deposit or a withdrawal.
#[derive(Clone, Debug, PartialEq, Eq)]
pub enum TransactionKind {
    Deposit,
    Withdrawal,
}

/// The kind a kind string names: `withdrawal` or `withdraw` in any case is a withdrawal,
/// anything else a deposit.
pub open spec fn kind_of(s: Seq<char>) -> TransactionKind {
    if eq_ignore_ascii_case(s, "withdrawal"@) || eq_ignore_ascii_case(s, "withdraw"@) {
        TransactionKind::Withdrawal
    } else {
        TransactionKind::Deposit
    }
}

impl TransactionKind {
    /// Normalises an anchor's kind string without regard to case.
    ///
    /// Comparing the lower-cased string with `withdrawal` and `withdraw` is the same as
    /// comparing without ASCII case: the only non-ASCII character whose lower-case form is
    /// ASCII is the Kelvin sign, which becomes `k`, a letter neither word holds.
    #[allow(clippy::should_implement_trait)]
    pub fn from_str(s: &str) -> (k: Self)
        ensures
            k == kind_of(s@),
    {
        let v = chars_of(s);
        let w1 = chars_of("withdrawal");
        let w2 = chars_of("withdraw");
        if chars_eq_ignore_ascii_case(v.as_slice(), w1.as_slice()) || chars_eq_ignore_ascii_case(
            v.as_slice(),
            w2.as_slice(),
        ) {
            TransactionKind::Withdrawal
        } else {
            TransactionKind::Deposit
        }
    }
}

// ── Raw anchor response shapes ───────────────────────────────────────────────

/// Raw fields from an anchor's `/deposit` response.
/// Callers fill in only the fields the anchor actually returns.
pub struct RawDepositResponse {
    pub transaction_id: String,
    pub how: String,
    pub extra_info: Option<String>,
    pub min_amount: Option<u64>,
    pub max_amount: Option<u64>,
    pub fee_fixed: Option<u64>,
    pub fee_percent: Option<u32>,
    /// Raw status string from the anchor (e.g. `"pending_external"`).
    pub status: Option<String>,
    /// Optional Stellar account (G-address) of the depositor.
    pub depositor_account: Option<String>,
}

/// Raw fields from an anchor's `/withdraw` response.
pub struct RawWithdrawalResponse {
    pub transaction_id: String,
    pub account_id: String,
    pub dest_account_id: Option<String>,
    pub memo: Option<String>,
    pub memo_type: Option<String>,
    pub min_amount: Option<u64>,
    pub max_amount: Option<u64>,
    pub fee_fixed: Option<u64>,
    pub fee_percent: Option<u32>,
    pub status: Option<String>,
}

/// Raw fields from an anchor's `/transaction` response.
pub struct RawTransactionResponse {
    pub transaction_id: String,
    pub kind: Option<String>,
    pub status: String,
    pub amount_in: Option<u64>,
    pub amount_out: Option<u64>,
    pub amount_fee: Option<u64>,
    pub message: Option<String>,
}

/// Input parameters for fetching a list of transactions from an anchor.
pub struct RawTransactionListRequest {
    /// Stellar account (G-address) whose transactions to fetch.
    pub account: String,
    /// Asset code to filter by (e.g. `"USDC"`).
    pub asset_code: String,
    /// Maximum number of transactions to return.
    pub limit: u32,
    /// Pagination cursor: the transaction ID to start after, if any.
    pub cursor: Option<String>,
}

// ── Specification of the service functions ───────────────────────────────────

/// A Stellar account address as accepted here: `G` followed by ASCII letters and digits,
/// 55 or 56 characters in all.
pub open spec fn valid_stellar_address(s: Seq<char>) -> bool {
    &&& 55 <= s.len() <= 56
    &&& s[0] == 'G'
    &&& forall|i: int| 0 <= i < s.len() ==> is_ascii_alphanumeric(#[trigger] s[i])
}

/// The status a raw optional status string normalises to (`Pending` when absent).
pub open spec fn status_normalized(raw: Option<String>, st: TransactionStatus) -> bool {
    match raw {
        Some(s) => parses_to(s@, st),
        None => st == TransactionStatus::Pending,
    }
}

/// No depositor account is given, or the one given is a Stellar address.
pub open spec fn depositor_acceptable(raw: RawDepositResponse) -> bool {
    match raw.depositor_account {
        Some(a) => valid_stellar_address(a@),
        None => true,
    }
}

pub open spec fn deposit_normalized(raw: RawDepositResponse, d: DepositResponse) -> bool {
    &&& d.transaction_id == raw.transaction_id
    &&& d.how == raw.how
    &&& d.extra_info == raw.extra_info
    &&& d.min_amount == raw.min_amount
    &&& d.max_amount == raw.max_amount
    &&& d.fee_fixed == raw.fee_fixed
    &&& d.fee_percent == raw.fee_percent
    &&& status_normalized(raw.status, d.status)
}

pub open spec fn withdrawal_normalized(raw: RawWithdrawalResponse, w: WithdrawalResponse) -> bool {
    &&& w.transaction_id == raw.transaction_id
    &&& w.account_id == raw.account_id
    &&& w.dest_account_id == raw.dest_account_id
    &&& w.memo == raw.memo
    &&& w.memo_type == raw.memo_type
    &&& w.min_amount == raw.min_amount
    &&& w.max_amount == raw.max_amount
    &&& w.fee_fixed == raw.fee_fixed
    &&& w.fee_percent == raw.fee_percent
    &&& status_normalized(raw.status, w.status)
}

pub open spec fn transaction_normalized(raw: RawTransactionResponse, t: TransactionStatusResponse) -> bool {
    &&& t.transaction_id == raw.transaction_id
    &&& t.kind == match raw.kind {
        Some(k) => kind_of(k@),
        None => TransactionKind::Deposit,
    }
    &&& parses_to(raw.status@, t.status)
    &&& t.amount_in == raw.amount_in
    &&& t.amount_out == raw.amount_out
    &&& t.amount_fee == raw.amount_fee
    &&& t.message == raw.message
}

/// Item `i` is listed: it carries a transaction ID, and, when a cursor is given, it
/// comes after an item whose ID is the cursor and is not such an item itself.
pub open spec fn listed(ids: Seq<Seq<char>>, cursor: Option<Seq<char>>, i: int) -> bool {
    &&& ids[i].len() > 0
    &&& match cursor {
        None => true,
        Some(c) => ids[i] != c && exists|j: int| 0 <= j < i && #[trigger] ids[j] == c,
    }
}

/// The indices, in order, of the listed items among the first `n`.
pub open spec fn listed_indices(ids: Seq<Seq<char>>, cursor: Option<Seq<char>>, n: int) -> Seq<int>
    decreases n,
{
    if n <= 0 {
        Seq::empty()
    } else if listed(ids, cursor, n - 1) {
        listed_indices(ids, cursor, n - 1).push(n - 1)
    } else {
        listed_indices(ids, cursor, n - 1)
    }
}

/// The first `limit` listed indices.
pub open spec fn page_indices(ids: Seq<Seq<char>>, cursor: Option<Seq<char>>, limit: nat) -> Seq<int> {
    let all = listed_indices(ids, cursor, ids.len() as int);
    if all.len() <= limit {
        all
    } else {
        all.take(limit as int)
    }
}

pub open spec fn transaction_ids(items: Seq<RawTransactionResponse>) -> Seq<Seq<char>> {
    items.map_values(|r: RawTransactionResponse| r.transaction_id@)
}

pub open spec fn cursor_view(req: RawTransactionListRequest) -> Option<Seq<char>> {
    match req.cursor {
        Some(c) => Some(c@),
        None => None,
    }
}

/// Normalising a status string and writing the status back gives the string again, for
/// every string but the alias `pending_user_transfer_start` (written back as
/// `pending_user`).
pub proof fn law_status_string_round_trip(s: Seq<char>, st: TransactionStatus)
    requires
        parses_to(s, st),
        s != "pending_user_transfer_start"@,
    ensures
        status_text(st) == s,
{
}

/// Writing a status and normalising the string gives the status again, for every status
/// but `Error` (whose string `error` is not one the anchors' statuses are read from) and
/// an `Unknown` holding a string that names a status.
pub proof fn law_status_value_round_trip(st: TransactionStatus)
    requires
        st != TransactionStatus::Error,
        st matches TransactionStatus::Unknown(u) ==> known_status(u@) is None,
    ensures
        parses_to(status_text(st), st),
{
    lemma_status_literals();
}

/// The status strings have these lengths, and the two of length 7 differ.
proof fn lemma_status_literals()
    ensures
        "pending"@.len() == 7,
        "incomplete"@.len() == 10,
        "pending_external"@.len() == 16,
        "pending_anchor"@.len() == 14,
        "pending_trust"@.len() == 13,
        "pending_user"@.len() == 12,
        "pending_user_transfer_start"@.len() == 27,
        "completed"@.len() == 9,
        "refunded"@.len() == 8,
        "expired"@.len() == 7,
        "pending"@ != "expired"@,
{
    reveal_strlit("pending");
    reveal_strlit("incomplete");
    reveal_strlit("pending_external");
    reveal_strlit("pending_anchor");
    reveal_strlit("pending_trust");
    reveal_strlit("pending_user");
    reveal_strlit("pending_user_transfer_start");
    reveal_strlit("completed");
    reveal_strlit("refunded");
    reveal_strlit("expired");
    assert("pending"@[0] != "expired"@[0]);
}

proof fn lemma_listed_indices_listed(ids: Seq<Seq<char>>, cursor: Option<Seq<char>>, n: int)
    requires
        0 <= n,
    ensures
        forall|k: int|
            0 <= k < listed_indices(ids, cursor, n).len() ==> listed(
                ids,
                cursor,
                #[trigger] listed_indices(ids, cursor, n)[k],
            ),
        forall|a: int, b: int|
            0 <= a < b < listed_indices(ids, cursor, n).len() ==> #[trigger] listed_indices(
                ids,
                cursor,
                n,
            )[a] < #[trigger] listed_indices(ids, cursor, n)[b],
    decreases n,
{
    if n > 0 {
        lemma_listed_indices_listed(ids, cursor, n - 1);
        lemma_listed_indices_bounds(ids, cursor, n - 1);
    }
}

/// A page holds at most `limit` items, keeps the order of the input, and holds only
/// listed items: ones with a transaction ID that come after the cursor and are not the
/// cursor item.
pub proof fn law_page_bounded_ordered_listed(ids: Seq<Seq<char>>, cursor: Option<Seq<char>>, limit: nat)
    ensures
        page_indices(ids, cursor, limit).len() <= limit,
        forall|a: int, b: int|
            0 <= a < b < page_indices(ids, cursor, limit).len() ==> #[trigger] page_indices(
                ids,
                cursor,
                limit,
            )[a] < #[trigger] page_indices(ids, cursor, limit)[b],
        forall|k: int|
            0 <= k < page_indices(ids, cursor, limit).len() ==> 0 <= #[trigger] page_indices(
                ids,
                cursor,
                limit,
            )[k] < ids.len() && listed(ids, cursor, page_indices(ids, cursor, limit)[k]),
{
    let n = ids.len() as int;
    lemma_listed_indices_listed(ids, cursor, n);
    lemma_listed_indices_bounds(ids, cursor, n);
    let all = listed_indices(ids, cursor, n);
    let page = page_indices(ids, cursor, limit);
    assert forall|k: int| 0 <= k < page.len() implies #[trigger] page[k] == all[k] by {}
}

/// Normalising a deposit response carries each copied field to the field of the same
/// name: the ID, the instructions, the extra information, both amount bounds and both
/// fees. In particular the bounds keep their order.
pub proof fn law_deposit_fields_carried(raw: RawDepositResponse, d: DepositResponse)
    requires
        deposit_normalized(raw, d),
    ensures
        d.transaction_id == raw.transaction_id,
        d.how == raw.how,
        d.extra_info == raw.extra_info,
        d.min_amount == raw.min_amount,
        d.max_amount == raw.max_amount,
        d.fee_fixed == raw.fee_fixed,
        d.fee_percent == raw.fee_percent,
        (raw.min_amount matches Some(lo) && raw.max_amount matches Some(hi) && lo <= hi) ==> (
        d.min_amount matches Some(a) && d.max_amount matches Some(b) && a <= b),
{
}

/// Normalising a withdrawal response carries each copied field to the field of the same
/// name: the ID, both accounts, the memo and its type, both amount bounds and both fees.
/// In particular the bounds keep their order.
pub proof fn law_withdrawal_fields_carried(raw: RawWithdrawalResponse, w: WithdrawalResponse)
    requires
        withdrawal_normalized(raw, w),
    ensures
        w.transaction_id == raw.transaction_id,
        w.account_id == raw.account_id,
        w.dest_account_id == raw.dest_account_id,
        w.memo == raw.memo,
        w.memo_type == raw.memo_type,
        w.min_amount == raw.min_amount,
        w.max_amount == raw.max_amount,
        w.fee_fixed == raw.fee_fixed,
        w.fee_percent == raw.fee_percent,
        (raw.min_amount matches Some(lo) && raw.max_amount matches Some(hi) && lo <= hi) ==> (
        w.min_amount matches Some(a) && w.max_amount matches Some(b) && a <= b),
{
}

/// Normalising a transaction response carries the ID, the amount sent, the amount
/// received, the fee and the message each to the field of the same name; so the amounts
/// of a listed page are those of the raw items it lists.
pub proof fn law_transaction_fields_carried(raw: RawTransactionResponse, t: TransactionStatusResponse)
    requires
        transaction_normalized(raw, t),
    ensures
        t.transaction_id == raw.transaction_id,
        t.amount_in == raw.amount_in,
        t.amount_out == raw.amount_out,
        t.amount_fee == raw.amount_fee,
        t.message == raw.message,
{
}

// ── Service functions ────────────────────────────────────────────────────────

/// Whether `s` looks like a Stellar account address (see [`valid_stellar_address`]).
fn is_valid_stellar_address(s: &str) -> (r: bool)
    ensures
        r == valid_stellar_address(s@),
{
    let v = chars_of(s);
    let n = v.len();
    if n < 55 || n > 56 || v[0] != 'G' {
        return false;
    }
    let mut i: usize = 0;
    while i < n
        invariant
            n == v@.len(),
            v@ == s@,
            i <= n,
            forall|k: int| 0 <= k < i ==> is_ascii_alphanumeric(#[trigger] v@[k]),
        decreases n - i,
    {
        if !char_is_ascii_alphanumeric(v[i]) {
            assert(!is_ascii_alphanumeric(v@[i as int]));
            return false;
        }
        i = i + 1;
    }
    true
}

fn normalize_status(raw: Option<String>) -> (st: TransactionStatus)
    ensures
        status_normalized(raw, st),
{
    match raw {
        Some(s) => TransactionStatus::from_str(s.as_str()),
        None => TransactionStatus::Pending,
    }
}

/// Normalises a raw anchor deposit response into a canonical [`DepositResponse`].
///
/// Fails with `invalid_transaction_intent` when the transaction ID or the `how` field is
/// empty, and with a `ValidationError` naming the address when a depositor account is
/// given that is not a Stellar address.
pub fn initiate_deposit(raw: RawDepositResponse) -> (r: Result<DepositResponse, Error>)
    ensures
        (raw.transaction_id@.len() == 0 || raw.how@.len() == 0) ==> (r matches Err(e)
            && e.spec_is_invalid_transaction_intent()),
        (raw.transaction_id@.len() != 0 && raw.how@.len() != 0 && !depositor_acceptable(raw)) ==> (
        r matches Err(e) && e.has_context(
            ErrorCode::ValidationError,
            "Invalid Stellar address"@,
            raw.depositor_account->0@,
        )),
        (raw.transaction_id@.len() != 0 && raw.how@.len() != 0 && depositor_acceptable(raw)) ==> (
        r matches Ok(d) && deposit_normalized(raw, d)),
        r matches Ok(d) ==> {
            &&& d.transaction_id == raw.transaction_id
            &&& d.how == raw.how
            &&& d.extra_info == raw.extra_info
            &&& d.min_amount == raw.min_amount
            &&& d.max_amount == raw.max_amount
            &&& d.fee_fixed == raw.fee_fixed
            &&& d.fee_percent == raw.fee_percent
        },
{
    if raw.transaction_id.as_str().is_empty() || raw.how.as_str().is_empty() {
        return Err(AnchorKitError::invalid_transaction_intent());
    }
    if let Some(acct) = &raw.depositor_account {
        if !is_valid_stellar_address(acct.as_str()) {
            return Err(
                AnchorKitError::with_context(
                    ErrorCode::ValidationError,
                    "Invalid Stellar address",
                    acct.as_str(),
                ),
            );
        }
    }
    let ghost raw0 = raw;
    let status = normalize_status(raw.status);
    let d = DepositResponse {
        transaction_id: raw.transaction_id,
        how: raw.how,
        extra_info: raw.extra_info,
        min_amount: raw.min_amount,
        max_amount: raw.max_amount,
        fee_fixed: raw.fee_fixed,
        fee_percent: raw.fee_percent,
        status,
    };
    assert(deposit_normalized(raw0, d));
    Ok(d)
}

/// Normalises a raw anchor withdrawal response into a canonical [`WithdrawalResponse`].
///
/// Fails with `invalid_transaction_intent` when the transaction ID or the account ID is
/// empty.
pub fn initiate_withdrawal(raw: RawWithdrawalResponse) -> (r: Result<WithdrawalResponse, Error>)
    ensures
        (raw.transaction_id@.len() == 0 || raw.account_id@.len() == 0) ==> (r matches Err(e)
            && e.spec_is_invalid_transaction_intent()),
        (raw.transaction_id@.len() != 0 && raw.account_id@.len() != 0) ==> (r matches Ok(w)
            && withdrawal_normalized(raw, w)),
        r matches Ok(w) ==> {
            &&& w.transaction_id == raw.transaction_id
            &&& w.account_id == raw.account_id
            &&& w.dest_account_id == raw.dest_account_id
            &&& w.memo == raw.memo
            &&& w.memo_type == raw.memo_type
            &&& w.min_amount == raw.min_amount
            &&& w.max_amount == raw.max_amount
            &&& w.fee_fixed == raw.fee_fixed
            &&& w.fee_percent == raw.fee_percent
        },
{
    if raw.transaction_id.as_str().is_empty() || raw.account_id.as_str().is_empty() {
        return Err(AnchorKitError::invalid_transaction_intent());
    }
    let ghost raw0 = raw;
    let status = normalize_status(raw.status);
    let w = WithdrawalResponse {
        transaction_id: raw.transaction_id,
        account_id: raw.account_id,
        dest_account_id: raw.dest_account_id,
        memo: raw.memo,
        memo_type: raw.memo_type,
        min_amount: raw.min_amount,
        max_amount: raw.max_amount,
        fee_fixed: raw.fee_fixed,
        fee_percent: raw.fee_percent,
        status,
    };
    assert(withdrawal_normalized(raw0, w));
    Ok(w)
}

/// Normalises a raw anchor transaction response into a canonical
/// [`TransactionStatusResponse`]; a missing kind is a deposit.
///
/// Fails with `invalid_transaction_intent` when the transaction ID is empty.
pub fn fetch_transaction_status(raw: RawTransactionResponse) -> (r: Result<TransactionStatusResponse, Error>)
    ensures
        raw.transaction_id@.len() == 0 ==> (r matches Err(e) && e.spec_is_invalid_transaction_intent()),
        raw.transaction_id@.len() != 0 ==> (r matches Ok(t) && transaction_normalized(raw, t)),
        r matches Ok(t) ==> {
            &&& t.transaction_id == raw.transaction_id
            &&& t.amount_in == raw.amount_in
            &&& t.amount_out == raw.amount_out
            &&& t.amount_fee == raw.amount_fee
            &&& t.message == raw.message
        },
{
    if raw.transaction_id.as_str().is_empty() {
        return Err(AnchorKitError::invalid_transaction_intent());
    }
    let ghost raw0 = raw;
    let kind = match &raw.kind {
        Some(k) => TransactionKind::from_str(k.as_str()),
        None => TransactionKind::Deposit,
    };
    let status = TransactionStatus::from_str(raw.status.as_str());
    let t = TransactionStatusResponse {
        transaction_id: raw.transaction_id,
        kind,
        status,
        amount_in: raw.amount_in,
        amount_out: raw.amount_out,
        amount_fee: raw.amount_fee,
        message: raw.message,
    };
    assert(transaction_normalized(raw0, t));
    Ok(t)
}

proof fn lemma_listed_indices_bounds(ids: Seq<Seq<char>>, cursor: Option<Seq<char>>, n: int)
    requires
        0 <= n,
    ensures
        forall|k: int|
            0 <= k < listed_indices(ids, cursor, n).len() ==> 0 <= #[trigger] listed_indices(
                ids,
                cursor,
                n,
            )[k] < n,
        listed_indices(ids, cursor, n).len() <= n,
    decreases n,
{
    if n > 0 {
        lemma_listed_indices_bounds(ids, cursor, n - 1);
    }
}

proof fn lemma_listed_indices_prefix(ids: Seq<Seq<char>>, cursor: Option<Seq<char>>, i: int, n: int)
    requires
        0 <= i <= n,
    ensures
        listed_indices(ids, cursor, i).len() <= listed_indices(ids, cursor, n).len(),
        listed_indices(ids, cursor, n).take(listed_indices(ids, cursor, i).len() as int)
            == listed_indices(ids, cursor, i),
    decreases n - i,
{
    if i < n {
        lemma_listed_indices_prefix(ids, cursor, i, n - 1);
        let a = listed_indices(ids, cursor, i);
        let b = listed_indices(ids, cursor, n - 1);
        let c = listed_indices(ids, cursor, n);
        assert(c.take(b.len() as int) =~= b);
        assert(c.take(a.len() as int) =~= b.take(a.len() as int));
    } else {
        assert(listed_indices(ids, cursor, n).take(listed_indices(ids, cursor, n).len() as int)
            =~= listed_indices(ids, cursor, n));
    }
}

/// The items at the given indices, in that order.
pub open spec fn pick(items: Seq<RawTransactionResponse>, idx: Seq<int>) -> Seq<RawTransactionResponse> {
    Seq::new(idx.len(), |k: int| items[idx[k]])
}

/// `s` without the items whose transaction ID is `c`, the others kept in order.
pub open spec fn without_id(s: Seq<RawTransactionResponse>, c: Seq<char>) -> Seq<RawTransactionResponse>
    decreases s.len(),
{
    if s.len() == 0 {
        s
    } else if s.last().transaction_id@ == c {
        without_id(s.drop_last(), c)
    } else {
        without_id(s.drop_last(), c).push(s.last())
    }
}

proof fn lemma_pick_push(items: Seq<RawTransactionResponse>, idx: Seq<int>, x: int)
    ensures
        pick(items, idx.push(x)) == pick(items, idx).push(items[x]),
{
    assert(pick(items, idx.push(x)) =~= pick(items, idx).push(items[x]));
}

proof fn lemma_pick_take(items: Seq<RawTransactionResponse>, idx: Seq<int>, k: int)
    requires
        0 <= k <= idx.len(),
    ensures
        pick(items, idx.take(k)) == pick(items, idx).take(k),
{
    assert(pick(items, idx.take(k)) =~= pick(items, idx).take(k));
}

/// Picking from a longer sequence gives the same items while every index stays below
/// the shorter one's length.
proof fn lemma_pick_extend(s: Seq<RawTransactionResponse>, x: RawTransactionResponse, idx: Seq<int>)
    requires
        forall|k: int| 0 <= k < idx.len() ==> 0 <= #[trigger] idx[k] < s.len(),
    ensures
        pick(s.push(x), idx) == pick(s, idx),
{
    assert forall|k: int| 0 <= k < idx.len() implies #[trigger] pick(s.push(x), idx)[k] == pick(
        s,
        idx,
    )[k] by {
        assert(0 <= idx[k] < s.len());
    }
    assert(pick(s.push(x), idx) =~= pick(s, idx));
}

/// Without a cursor, the listed indices among the first `m` depend only on the first
/// `m` IDs.
proof fn lemma_listed_without_cursor_prefix(ids1: Seq<Seq<char>>, ids2: Seq<Seq<char>>, m: int)
    requires
        0 <= m <= ids1.len(),
        m <= ids2.len(),
        forall|i: int| 0 <= i < m ==> ids1[i] == ids2[i],
    ensures
        listed_indices(ids1, None, m) == listed_indices(ids2, None, m),
    decreases m,
{
    if m > 0 {
        lemma_listed_without_cursor_prefix(ids1, ids2, m - 1);
        assert(ids1[m - 1] == ids2[m - 1]);
    }
}

/// Before the cursor has been seen, nothing is listed.
proof fn lemma_nothing_listed_before_cursor(ids: Seq<Seq<char>>, c: Seq<char>, m: int)
    requires
        0 <= m <= ids.len(),
        forall|j: int| 0 <= j < m - 1 ==> ids[j] != c,
    ensures
        listed_indices(ids, Some(c), m).len() == 0,
    decreases m,
{
    if m > 0 {
        lemma_nothing_listed_before_cursor(ids, c, m - 1);
        if listed(ids, Some(c), m - 1) {
            let j = choose|j: int| 0 <= j < m - 1 && #[trigger] ids[j] == c;
            assert(ids[j] != c);
        }
    }
}

/// Listing the first `n` items with the cursor picks the same items as listing, without
/// a cursor, the items strictly between the cursor's first occurrence and `n` that do not
/// carry the cursor's ID.
proof fn lemma_cursor_listing_prefix(items: Seq<RawTransactionResponse>, c: Seq<char>, first: int, n: int)
    requires
        0 <= first < n <= items.len(),
        items[first].transaction_id@ == c,
        forall|j: int| 0 <= j < first ==> (#[trigger] items[j]).transaction_id@ != c,
    ensures
        ({
            let rest = without_id(items.subrange(first + 1, n), c);
            pick(items, listed_indices(transaction_ids(items), Some(c), n)) == pick(
                rest,
                listed_indices(transaction_ids(rest), None, rest.len() as int),
            )
        }),
    decreases n,
{
    let ids = transaction_ids(items);
    let s = items.subrange(first + 1, n);
    let rest = without_id(s, c);
    if n == first + 1 {
        assert forall|j: int| 0 <= j < n - 1 implies ids[j] != c by {
            assert(ids[j] == items[j].transaction_id@);
        }
        lemma_nothing_listed_before_cursor(ids, c, n);
        assert(s.len() == 0);
        assert(pick(items, listed_indices(ids, Some(c), n)) =~= Seq::<RawTransactionResponse>::empty());
        assert(pick(rest, listed_indices(transaction_ids(rest), None, rest.len() as int))
            =~= Seq::<RawTransactionResponse>::empty());
    } else {
        lemma_cursor_listing_prefix(items, c, first, n - 1);
        let s0 = items.subrange(first + 1, n - 1);
        let rest0 = without_id(s0, c);
        assert(s.drop_last() =~= s0);
        assert(s.last() == items[n - 1]);
        let x = items[n - 1];
        assert(ids[n - 1] == x.transaction_id@);
        assert(ids[first] == c);
        let before = listed_indices(ids, Some(c), n - 1);
        let ids0 = transaction_ids(rest0);
        let m = rest0.len() as int;
        let after0 = listed_indices(ids0, None, m);
        if x.transaction_id@ == c {
            assert(!listed(ids, Some(c), n - 1));
            assert(rest == rest0);
        } else {
            assert(rest == rest0.push(x));
            assert(listed(ids, Some(c), n - 1) == (x.transaction_id@.len() > 0));
            let ids1 = transaction_ids(rest);
            assert(ids1.len() == m + 1);
            assert forall|i: int| 0 <= i < m implies ids1[i] == ids0[i] by {
                assert(rest[i] == rest0[i]);
            }
            lemma_listed_without_cursor_prefix(ids1, ids0, m);
            lemma_listed_indices_bounds(ids0, None, m);
            lemma_pick_extend(rest0, x, after0);
            assert(ids1[m] == x.transaction_id@);
            assert(rest[m] == x);
            if x.transaction_id@.len() > 0 {
                lemma_pick_push(items, before, n - 1);
                lemma_pick_push(rest, after0, m);
            }
        }
    }
}

/// Listing with a cursor that names no item lists nothing.
pub proof fn law_cursor_not_found(items: Seq<RawTransactionResponse>, c: Seq<char>, limit: nat)
    requires
        forall|j: int| 0 <= j < items.len() ==> (#[trigger] items[j]).transaction_id@ != c,
    ensures
        page_indices(transaction_ids(items), Some(c), limit).len() == 0,
{
    let ids = transaction_ids(items);
    assert forall|j: int| 0 <= j < ids.len() - 1 implies ids[j] != c by {
        assert(ids[j] == items[j].transaction_id@);
    }
    lemma_nothing_listed_before_cursor(ids, c, ids.len() as int);
}

/// Listing with a cursor gives the same page as listing, without a cursor and with the
/// same limit, the items after the first one whose ID is the cursor, leaving out every
/// item whose ID is the cursor.
pub proof fn law_cursor_listing(items: Seq<RawTransactionResponse>, c: Seq<char>, limit: nat, first: int)
    requires
        0 <= first < items.len(),
        items[first].transaction_id@ == c,
        forall|j: int| 0 <= j < first ==> (#[trigger] items[j]).transaction_id@ != c,
    ensures
        ({
            let rest = without_id(items.skip(first + 1), c);
            pick(items, page_indices(transaction_ids(items), Some(c), limit)) == pick(
                rest,
                page_indices(transaction_ids(rest), None, limit),
            )
        }),
{
    let n = items.len() as int;
    assert(items.skip(first + 1) =~= items.subrange(first + 1, n));
    lemma_cursor_listing_prefix(items, c, first, n);
    let rest = without_id(items.skip(first + 1), c);
    let all1 = listed_indices(transaction_ids(items), Some(c), n);
    let all2 = listed_indices(transaction_ids(rest), None, rest.len() as int);
    assert(transaction_ids(items).len() == n);
    assert(transaction_ids(rest).len() == rest.len());
    assert(pick(items, all1).len() == all1.len());
    assert(pick(rest, all2).len() == all2.len());
    if all1.len() > limit {
        lemma_pick_take(items, all1, limit as int);
        lemma_pick_take(rest, all2, limit as int);
    }
}

/// Normalises the raw transactions of an account for one asset, one page at a time.
///
/// Fails with a `ValidationError` when `account` is not a Stellar address or
/// `asset_code` is empty. Items without a transaction ID are skipped. With a cursor,
/// only the items after the first one whose ID is the cursor are kept (an item whose ID
/// is the cursor is never kept), as in cursor-based pagination. At most `limit` items are
/// returned, in their order.
pub fn list_transactions(
    req: RawTransactionListRequest,
    raw_items: Vec<RawTransactionResponse>,
) -> (r: Result<Vec<TransactionStatusResponse>, Error>)
    ensures
        !valid_stellar_address(req.account@) ==> (r matches Err(e) && e.has_context(
            ErrorCode::ValidationError,
            "Invalid Stellar address"@,
            req.account@,
        )),
        valid_stellar_address(req.account@) && req.asset_code@.len() == 0 ==> (r matches Err(e)
            && e.has_context(
            ErrorCode::ValidationError,
            "asset_code must not be empty"@,
            "asset_code"@,
        )),
        valid_stellar_address(req.account@) && req.asset_code@.len() != 0 ==> (r matches Ok(v) && {
            let page = page_indices(transaction_ids(raw_items@), cursor_view(req), req.limit as nat);
            &&& v@.len() == page.len()
            &&& forall|k: int|
                0 <= k < v@.len() ==> transaction_normalized(
                    raw_items@[#[trigger] page[k]],
                    v@[k],
                )
        }),
{
    if !is_valid_stellar_address(req.account.as_str()) {
        return Err(
            AnchorKitError::with_context(
                ErrorCode::ValidationError,
                "Invalid Stellar address",
                req.account.as_str(),
            ),
        );
    }
    if req.asset_code.as_str().is_empty() {
        return Err(
            AnchorKitError::with_context(
                ErrorCode::ValidationError,
                "asset_code must not be empty",
                "asset_code",
            ),
        );
    }
    let ghost items = raw_items@;
    let ghost ids = transaction_ids(items);
    let ghost cursor = cursor_view(req);
    let ghost limit = req.limit as nat;
    let mut skip = req.cursor.is_some();
    let mut results: Vec<TransactionStatusResponse> = Vec::new();
    let mut done = false;
    for item in it: raw_items
        invariant
            it.seq() == items,
            ids == transaction_ids(items),
            cursor == cursor_view(req),
            limit == req.limit as nat,
            !done ==> skip == (req.cursor is Some && !exists|j: int|
                0 <= j < it.index() && #[trigger] ids[j] == req.cursor->0@),
            done ==> listed_indices(ids, cursor, it.index() as int).len() >= limit,
            !done ==> results@.len() == listed_indices(ids, cursor, it.index() as int).len(),
            results@.len() <= limit,
            done ==> results@.len() == limit,
            forall|k: int|
                0 <= k < results@.len() ==> transaction_normalized(
                    items[#[trigger] listed_indices(ids, cursor, it.index() as int)[k]],
                    results@[k],
                ),
    {
        let ghost i = it.index() as int;
        let ghost before = listed_indices(ids, cursor, i);
        proof {
            lemma_listed_indices_prefix(ids, cursor, i, i + 1);
            assert(items[i] == item);
            assert(ids[i] == item.transaction_id@);
        }
        let mut passed_over = done;
        if !passed_over {
            if let Some(c) = &req.cursor {
                if item.transaction_id == *c {
                    // The cursor item itself is never listed; listing starts after it.
                    skip = false;
                    passed_over = true;
                    assert(!listed(ids, cursor, i));
                    assert(listed_indices(ids, cursor, i + 1) == before);
                } else if skip {
                    passed_over = true;
                    assert(!listed(ids, cursor, i));
                    assert(listed_indices(ids, cursor, i + 1) == before);
                }
            }
        }
        if !passed_over {
            if results.len() as u32 >= req.limit {
                // The page is full: no further item is listed.
                done = true;
            } else {
                let nonempty = !item.transaction_id.as_str().is_empty();
                proof {
                    assert(listed(ids, cursor, i) == nonempty);
                }
                if let Ok(normalized) = fetch_transaction_status(item) {
                    results.push(normalized);
                    assert(listed_indices(ids, cursor, i + 1) == before.push(i));
                } else {
                    assert(listed_indices(ids, cursor, i + 1) == before);
                }
            }
        }
    }
    proof {
        let n = items.len() as int;
        lemma_listed_indices_bounds(ids, cursor, n);
        assert(ids.len() == n);
    }
    Ok(results)
}

} // verus!
