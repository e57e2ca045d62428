//! The account list: its order, and the changes that creating, editing and
//! deleting an account make to it.

use vstd::prelude::*;

use crate::app_error::{clock_error, clock_error_value, outcome, AppError, AppErrorView, AppResult};
use crate::models::{
    AccountMetadata, AccountMetadataView, AccountPayload, AccountPayloadView, CodeView, CodeViewView,
};
use crate::text::{same_text, trimmed};
use crate::decimal::{decimal_chars, decimal_digits, law_numeral_round_trip};
use crate::totp_logic::{
    code_at, decoded_secret, format_code, generate_code, generate_code_at, law_code_has_digits,
    law_format_code_ascii, normalize_payload, normalized_payload, payload_secret, seconds_left, seconds_remaining,
    seconds_remaining_at, NormalizedPayload,
    NormalizedPayloadView,
};
use crate::clock::current_unix_nanos;
use crate::trusted::string_from_chars;

verus! {

/// `perm` lists every index below `n` exactly once.
pub open spec fn is_permutation(perm: Seq<int>, n: nat) -> bool {
    &&& perm.len() == n
    &&& forall|k: int| 0 <= k < n ==> 0 <= #[trigger] perm[k] < n
    &&& forall|a: int, b: int| 0 <= a < b < n ==> perm[a] != perm[b]
}

/// Account `a` (by original position) goes before account `b`: a lower sort
/// order, or the same sort order and an earlier position.
pub open spec fn goes_before(accounts: Seq<AccountMetadata>, a: int, b: int) -> bool {
    ||| accounts[a].sort_order < accounts[b].sort_order
    ||| (accounts[a].sort_order == accounts[b].sort_order && a < b)
}

/// `sorted` is `accounts` ordered by sort order, accounts with equal sort
/// orders kept in their original order (a stable sort).
pub open spec fn stably_sorted(accounts: Seq<AccountMetadata>, sorted: Seq<AccountMetadata>) -> bool {
    exists|perm: Seq<int>|
        {
            &&& is_permutation(perm, accounts.len())
            &&& sorted.len() == accounts.len()
            &&& forall|k: int| 0 <= k < sorted.len() ==> #[trigger] sorted[k] == accounts[perm[k]]
            &&& forall|a: int, b: int|
                0 <= a < b < perm.len() ==> goes_before(accounts, #[trigger] perm[a], #[trigger] perm[b])
        }
}

/// Orders accounts by their sort order, keeping the order of equal ones
/// (`sort_by_key` on `sort_order`).
pub fn sort_accounts(accounts: &mut Vec<AccountMetadata>)
    ensures
        stably_sorted(old(accounts)@, final(accounts)@),
{
    let ghost orig = accounts@;
    let n = accounts.len();
    let ghost mut perm: Seq<int> = Seq::new(n as nat, |k: int| k);
    let mut i: usize = 0;
    while i < n
        invariant
            i <= n == accounts@.len() == orig.len(),
            is_permutation(perm, n as nat),
            forall|k: int| 0 <= k < n ==> #[trigger] accounts@[k] == orig[perm[k]],
            forall|k: int| i <= k < n ==> #[trigger] perm[k] == k,
            forall|k: int| 0 <= k < i ==> #[trigger] perm[k] < i,
            forall|a: int, b: int|
                0 <= a < b < i ==> goes_before(orig, #[trigger] perm[a], #[trigger] perm[b]),
        decreases n - i,
    {
        let x = accounts.remove(i);
        let ghost removed = perm.remove(i as int);
        assert(x == orig[i as int]);
        let mut j: usize = 0;
        while j < i && accounts[j].sort_order <= x.sort_order
            invariant
                j <= i < n,
                accounts@.len() == n - 1,
                removed.len() == n - 1,
                forall|k: int| 0 <= k < n - 1 ==> #[trigger] accounts@[k] == orig[removed[k]],
                forall|t: int| 0 <= t < j ==> accounts@[t].sort_order <= x.sort_order,
            decreases i - j,
        {
            j = j + 1;
        }
        assert forall|t: int| 0 <= t < j implies orig[#[trigger] removed[t]].sort_order
            <= x.sort_order by {
            assert(accounts@[t] == orig[removed[t]]);
        }
        if j < i {
            assert(accounts@[j as int] == orig[removed[j as int]]);
        }
        accounts.insert(j, x);
        proof {
            let next = removed.insert(j as int, i as int);
            assert forall|k: int| 0 <= k < n implies #[trigger] accounts@[k] == orig[next[k]] by {
                if k < j {
                    assert(accounts@[k] == orig[removed[k]]);
                } else if k > j {
                    assert(accounts@[k] == orig[removed[k - 1]]);
                }
            }
            // Sort orders in the sorted prefix do not decrease.
            assert forall|a: int, b: int| 0 <= a < b < i implies orig[removed[a]].sort_order
                <= orig[removed[b]].sort_order by {
                assert(removed[a] == perm[a] && removed[b] == perm[b]);
                assert(goes_before(orig, perm[a], perm[b]));
            }
            if j < i {
                assert(orig[removed[j as int]].sort_order > x.sort_order);
            }
            assert forall|a: int, b: int| 0 <= a < b < i + 1 implies goes_before(
                orig,
                #[trigger] next[a],
                #[trigger] next[b],
            ) by {
                if b < j {
                    assert(next[a] == perm[a] && next[b] == perm[b]);
                } else if b == j {
                    assert(next[a] == perm[a]);
                    assert(orig[removed[a]].sort_order <= x.sort_order);
                } else if a == j {
                    assert(next[b] == perm[b - 1]);
                    assert(orig[removed[b - 1]].sort_order >= orig[removed[j as int]].sort_order);
                } else if a < j {
                    assert(next[a] == perm[a] && next[b] == perm[b - 1]);
                } else {
                    assert(next[a] == perm[a - 1] && next[b] == perm[b - 1]);
                }
            }
            assert forall|a: int, b: int| 0 <= a < b < n implies next[a] != next[b] by {
                let pa = if a < j { a } else if a == j { i as int } else if a <= i { a - 1 } else { a };
                let pb = if b < j { b } else if b == j { i as int } else if b <= i { b - 1 } else { b };
                assert(next[a] == perm[pa] && next[b] == perm[pb]);
            }
            assert forall|k: int| 0 <= k < n implies 0 <= #[trigger] next[k] < n by {
                if k < j {
                    assert(next[k] == perm[k]);
                } else if k > j && k <= i {
                    assert(next[k] == perm[k - 1]);
                } else if k > i {
                    assert(next[k] == perm[k]);
                }
            }
            assert forall|k: int| i + 1 <= k < n implies #[trigger] next[k] == k by {
                assert(next[k] == perm[k]);
            }
            assert forall|k: int| 0 <= k < i + 1 implies #[trigger] next[k] < i + 1 by {
                if k < j {
                    assert(next[k] == perm[k]);
                } else if k > j {
                    assert(next[k] == perm[k - 1]);
                }
            }
            perm = next;
        }
        i = i + 1;
    }
}


/// The largest sort order of the accounts, 0 for none.
pub open spec fn max_sort_order(accounts: Seq<AccountMetadata>) -> u32
    decreases accounts.len(),
{
    if accounts.len() == 0 {
        0
    } else {
        let m = max_sort_order(accounts.drop_last());
        if accounts.last().sort_order > m {
            accounts.last().sort_order
        } else {
            m
        }
    }
}

/// The sort order of an account added after all the others: one past the largest.
pub fn next_sort_order(accounts: &[AccountMetadata]) -> (r: u32)
    requires
        max_sort_order(accounts@) < u32::MAX,
    ensures
        r == max_sort_order(accounts@) + 1,
{
    let mut m: u32 = 0;
    let mut i: usize = 0;
    assert(accounts@.take(0) =~= Seq::<AccountMetadata>::empty());
    while i < accounts.len()
        invariant
            i <= accounts@.len(),
            m == max_sort_order(accounts@.take(i as int)),
        decreases accounts.len() - i,
    {
        assert(accounts@.take(i + 1).drop_last() =~= accounts@.take(i as int));
        if accounts[i].sort_order > m {
            m = accounts[i].sort_order;
        }
        i = i + 1;
    }
    assert(accounts@.take(accounts@.len() as int) =~= accounts@);
    m + 1
}

/// The stored record of a normalized account with the given id and sort order.
pub open spec fn account_from(n: NormalizedPayloadView, id: Seq<char>, sort_order: u32) -> AccountMetadataView {
    AccountMetadataView {
        id,
        service_name: n.service_name,
        issuer: n.issuer,
        account_label: n.account_label,
        digits: n.digits,
        period: n.period,
        algorithm: n.algorithm,
        icon: n.icon,
        sort_order,
    }
}

fn into_account(n: NormalizedPayload, id: String, sort_order: u32) -> (r: (AccountMetadata, Option<String>))
    ensures
        r.0@ == account_from(n@, id@, sort_order),
        r.1.deep_view() == n@.secret,
{
    (
        AccountMetadata {
            id,
            service_name: n.service_name,
            issuer: n.issuer,
            account_label: n.account_label,
            digits: n.digits,
            period: n.period,
            algorithm: n.algorithm,
            icon: n.icon,
            sort_order,
        },
        n.secret,
    )
}

/// A new account from the editor's submission: its record, placed after
/// the existing accounts, and its secret, which it must have.
pub open spec fn created_account(
    accounts: Seq<AccountMetadata>,
    payload: AccountPayloadView,
    id: Seq<char>,
) -> Result<(AccountMetadataView, Seq<char>), AppErrorView> {
    match normalized_payload(payload, None) {
        Err(e) => Err(e),
        Ok(n) => match n.secret {
            Some(secret) => Ok((account_from(n, id, (max_sort_order(accounts) + 1) as u32), secret)),
            None => Err(AppErrorView::Validation("Secret is required"@)),
        },
    }
}

/// Builds the record and secret of a new account with the given id.
pub fn new_account(accounts: &[AccountMetadata], payload: &AccountPayload, id: String) -> (r: AppResult<(AccountMetadata, String)>)
    requires
        normalized_payload(payload@, None) matches Ok(n) && n.secret is Some ==> max_sort_order(
            accounts@,
        ) < u32::MAX,
    ensures
        outcome(r) == created_account(accounts@, payload@, id@),
{
    let normalized = normalize_payload(payload, None)?;
    if normalized.secret.is_none() {
        return Err(AppError::Validation(String::from_str("Secret is required")));
    }
    let sort_order = next_sort_order(accounts);
    let (metadata, secret) = into_account(normalized, id, sort_order);
    match secret {
        Some(secret) => Ok((metadata, secret)),
        None => Err(AppError::Validation(String::from_str("Secret is required"))),
    }
}

/// The position of the first account with the given id.
pub open spec fn account_position(accounts: Seq<AccountMetadata>, id: Seq<char>) -> Option<int> {
    accounts.map_values(|a: AccountMetadata| a.id@).index_of_first(id)
}

/// Finds the first account with the given id.
pub fn find_account(accounts: &[AccountMetadata], id: &str) -> (r: Option<usize>)
    ensures
        match r {
            Some(i) => account_position(accounts@, id@) == Some(i as int),
            None => account_position(accounts@, id@) is None,
        },
        r matches Some(i) ==> i < accounts@.len() && accounts@[i as int].id@ == id@,
{
    let ghost ids = accounts@.map_values(|a: AccountMetadata| a.id@);
    proof {
        ids.index_of_first_ensures(id@);
    }
    let mut i: usize = 0;
    while i < accounts.len()
        invariant
            i <= accounts@.len() == ids.len(),
            ids == accounts@.map_values(|a: AccountMetadata| a.id@),
            forall|j: int| 0 <= j < i ==> ids[j] != id@,
            match ids.index_of_first(id@) {
                Some(index) => {
                    &&& ids.contains(id@)
                    &&& 0 <= index < ids.len()
                    &&& ids[index] == id@
                    &&& forall|j: int| 0 <= j < index < ids.len() ==> ids[j] != id@
                },
                None => !ids.contains(id@),
            },
        decreases accounts.len() - i,
    {
        if same_text(accounts[i].id.as_str(), id) {
            assert(ids[i as int] == id@);
            return Some(i);
        }
        assert(ids[i as int] != id@);
        i = i + 1;
    }
    None
}

/// An edit of the account with the given id: its position, its new record
/// (same id and sort order, the other fields from the submission), and the
/// new secret if one was given.
pub open spec fn updated_account(
    accounts: Seq<AccountMetadata>,
    id: Seq<char>,
    payload: AccountPayloadView,
) -> Result<(int, AccountMetadataView, Option<Seq<char>>), AppErrorView> {
    match account_position(accounts, id) {
        None => Err(AppErrorView::NotFound("account"@)),
        Some(i) => match normalized_payload(payload, Some(accounts[i]@)) {
            Err(e) => Err(e),
            Ok(n) => Ok((i, account_from(n, accounts[i].id@, accounts[i].sort_order), n.secret)),
        },
    }
}

/// Prepares the edit of the account with the given id: where it is, its new
/// record, and the new secret to store if one was given.
pub fn edit_account(accounts: &[AccountMetadata], id: &str, payload: &AccountPayload) -> (r: AppResult<(usize, AccountMetadata, Option<String>)>)
    ensures
        match r {
            Ok((i, account, secret)) => updated_account(accounts@, id@, payload@) == Ok::<
                (int, AccountMetadataView, Option<Seq<char>>),
                AppErrorView,
            >((i as int, account@, secret.deep_view())),
            Err(e) => updated_account(accounts@, id@, payload@) == Err::<
                (int, AccountMetadataView, Option<Seq<char>>),
                AppErrorView,
            >(e@),
        },
{
    let index = match find_account(accounts, id) {
        Some(index) => index,
        None => {
            return Err(AppError::NotFound(String::from_str("account")));
        },
    };
    let existing = &accounts[index];
    let normalized = normalize_payload(payload, Some(existing))?;
    let (account, secret) = into_account(normalized, existing.id.clone(), existing.sort_order);
    Ok((index, account, secret))
}


/// The accounts left after deleting every account with the given id.
pub open spec fn kept_accounts(accounts: Seq<AccountMetadata>, id: Seq<char>) -> Seq<AccountMetadata> {
    accounts.filter(|a: AccountMetadata| a.id@ != id)
}

/// An account record with another sort order.
pub open spec fn with_sort_order(a: AccountMetadataView, sort_order: u32) -> AccountMetadataView {
    AccountMetadataView { sort_order, ..a }
}

/// Deletes every account with the given id and renumbers the sort orders
/// of the rest 0, 1, 2, ... in their order; refuses, changing nothing,
/// when no account has the id.
pub fn remove_account(accounts: &mut Vec<AccountMetadata>, id: &str) -> (r: AppResult<()>)
    ensures
        account_position(old(accounts)@, id@) is None ==> (r matches Err(e) && e@
            == AppErrorView::NotFound("account"@)) && final(accounts)@ == old(accounts)@,
        account_position(old(accounts)@, id@) is Some ==> r is Ok && final(accounts)@.len()
            == kept_accounts(old(accounts)@, id@).len() && forall|k: int|
            0 <= k < final(accounts)@.len() ==> #[trigger] final(accounts)@[k]@ == with_sort_order(
                kept_accounts(old(accounts)@, id@)[k]@,
                k as u32,
            ),
{
    if find_account(accounts.as_slice(), id).is_none() {
        return Err(AppError::NotFound(String::from_str("account")));
    }
    let ghost orig = accounts@;
    let ghost keep = |a: AccountMetadata| a.id@ != id@;
    let mut rest: Vec<AccountMetadata> = Vec::new();
    std::mem::swap(&mut rest, accounts);
    let mut kept: Vec<AccountMetadata> = Vec::new();
    let ghost mut t: int = 0;
    assert(orig.take(0).filter(keep) =~= Seq::<AccountMetadata>::empty()) by {
        reveal(Seq::filter);
    }
    assert(orig.skip(0) =~= orig);
    while rest.len() > 0
        invariant
            0 <= t <= orig.len(),
            rest@ == orig.skip(t),
            keep == (|a: AccountMetadata| a.id@ != id@),
            kept@.len() == orig.take(t).filter(keep).len(),
            forall|k: int|
                0 <= k < kept@.len() ==> #[trigger] kept@[k]@ == with_sort_order(
                    orig.take(t).filter(keep)[k]@,
                    k as u32,
                ),
        decreases rest.len(),
    {
        let mut a = rest.remove(0);
        proof {
            assert(a == orig[t]);
            assert(orig.take(t + 1) =~= orig.take(t).push(a));
            orig.take(t).lemma_filter_push(a, keep);
            assert(rest@ =~= orig.skip(t + 1));
        }
        if !same_text(a.id.as_str(), id) {
            a.sort_order = kept.len() as u32;
            kept.push(a);
        }
        proof {
            t = t + 1;
        }
    }
    assert(orig.take(t) =~= orig);
    *accounts = kept;
    Ok(())
}

/// The position of the first code with the given id.
pub open spec fn code_position(codes: Seq<CodeView>, id: Seq<char>) -> Option<int> {
    codes.map_values(|c: CodeView| c.id@).index_of_first(id)
}

/// Takes the first code with the given id out of the list, as copying a
/// code does; refuses when there is none.
pub fn find_code(codes: Vec<CodeView>, id: &str) -> (r: AppResult<CodeView>)
    ensures
        match code_position(codes@, id@) {
            Some(i) => r matches Ok(code) && code == codes@[i],
            None => r matches Err(e) && e@ == AppErrorView::NotFound("account"@),
        },
{
    let mut list = codes;
    let ghost ids = codes@.map_values(|c: CodeView| c.id@);
    proof {
        ids.index_of_first_ensures(id@);
    }
    let mut i: usize = 0;
    while i < list.len()
        invariant
            i <= list@.len() == ids.len(),
            list@ == codes@,
            ids == codes@.map_values(|c: CodeView| c.id@),
            forall|j: int| 0 <= j < i ==> ids[j] != id@,
            match ids.index_of_first(id@) {
                Some(index) => {
                    &&& ids.contains(id@)
                    &&& 0 <= index < ids.len()
                    &&& ids[index] == id@
                    &&& forall|j: int| 0 <= j < index < ids.len() ==> ids[j] != id@
                },
                None => !ids.contains(id@),
            },
        decreases list.len() - i,
    {
        if same_text(list[i].id.as_str(), id) {
            assert(ids[i as int] == id@);
            return Ok(list.remove(i));
        }
        assert(ids[i as int] != id@);
        i = i + 1;
    }
    Err(AppError::NotFound(String::from_str("account")))
}


/// A code split in the middle with a space, as the main window shows it.
pub open spec fn spaced_code(raw: Seq<char>) -> Seq<char> {
    raw.take((raw.len() / 2) as int) + seq![' '] + raw.skip((raw.len() / 2) as int)
}

/// What the main window shows of an account, given its code and the
/// seconds until the code changes.
pub open spec fn code_view_of(account: AccountMetadataView, raw: Seq<char>, seconds: u64) -> CodeViewView {
    CodeViewView {
        id: account.id,
        service_name: account.service_name,
        account_label: account.account_label,
        formatted_code: spaced_code(raw),
        raw_code: raw,
        seconds_remaining: seconds,
        period: account.period,
        icon: account.icon,
    }
}

/// The entry of the main window for an account whose secret is `secret`,
/// the code computed at Unix time `now` and the seconds left at `now2`.
pub open spec fn code_entry_at(account: AccountMetadataView, secret: Seq<char>, now: u64, now2: u64) -> Result<CodeViewView, AppErrorView> {
    match code_at(account, secret, now) {
        Ok(raw) => Ok(code_view_of(account, raw, seconds_left(account.period, now2))),
        Err(e) => Err(e),
    }
}

/// The secret lookup failed because the account has no secret.
pub open spec fn secret_missing(e: AppErrorView) -> bool {
    e == AppErrorView::NotFound("secret"@)
}

/// A code is ASCII and short: decimal digits, at most nine of them (a
/// single `0` for zero digits).
proof fn lemma_code_is_short_ascii(account: AccountMetadataView, secret: Seq<char>, now: u64)
    requires
        account.digits <= 9,
        code_at(account, secret, now) is Ok,
    ensures
        vstd::utf8::is_ascii_chars(code_at(account, secret, now)->Ok_0),
        code_at(account, secret, now)->Ok_0.len() <= 9,
{
    let raw = code_at(account, secret, now)->Ok_0;
    if account.digits >= 1 {
        law_code_has_digits(
            account.algorithm,
            account.digits,
            crate::totp_logic::decoded_secret(secret)->Ok_0,
            now / account.period,
        );
    } else {
        assert(crate::decimal::pow10(0) == 1);
        assert(raw =~= seq!['0']);
    }
}

/// The main window's entry for an account and its code.
fn entry_from_code(account: AccountMetadata, raw_code: String, seconds: u64) -> (r: CodeView)
    requires
        vstd::utf8::is_ascii_chars(raw_code@),
        raw_code@.len() <= 9,
    ensures
        r@ == code_view_of(account@, raw_code@, seconds),
{
    let raw_text = raw_code.as_str();
    proof {
        vstd::utf8::is_ascii_chars_encode_utf8(raw_code@);
        law_format_code_ascii(raw_text);
    }
    let formatted_code = format_code(raw_text);
    assert(formatted_code@ =~= spaced_code(raw_code@));
    CodeView {
        id: account.id,
        service_name: account.service_name,
        account_label: account.account_label,
        formatted_code,
        raw_code,
        seconds_remaining: seconds,
        period: account.period,
        icon: account.icon,
    }
}

/// The entry of the main window for an account, given the result of looking
/// up its secret, with the code computed at Unix time `now` and the seconds
/// left at `now2`. An account whose secret is missing is left out (`None`);
/// another failure of the lookup is passed on.
pub fn code_view_at(account: AccountMetadata, secret: AppResult<String>, now: u64, now2: u64) -> (r: AppResult<Option<CodeView>>)
    requires
        secret matches Ok(s) && decoded_secret(s@) is Ok ==> account.period > 0 && account.digits <= 9,
    ensures
        match secret {
            Err(e) => if secret_missing(e@) {
                r matches Ok(None)
            } else {
                r == Err::<Option<CodeView>, AppError>(e)
            },
            Ok(s) => match code_entry_at(account@, s@, now, now2) {
                Ok(v) => r matches Ok(Some(c)) && c@ == v,
                Err(e) => r matches Err(err) && err@ == e,
            },
        },
{
    let text = match secret {
        Ok(text) => text,
        Err(e) => {
            if is_missing_secret(&e) {
                return Ok(None);
            }
            return Err(e);
        },
    };
    let raw_code = generate_code_at(&account, text.as_str(), now)?;
    proof {
        lemma_code_is_short_ascii(account@, text@, now);
    }
    let seconds = seconds_remaining_at(account.period, now2);
    Ok(Some(entry_from_code(account, raw_code, seconds)))
}

/// Whether a lookup error says the secret is missing.
fn is_missing_secret(e: &AppError) -> (r: bool)
    ensures
        r == secret_missing(e@),
{
    match e {
        AppError::NotFound(kind) => same_text(kind.as_str(), "secret"),
        _ => false,
    }
}

/// The entry of the main window for an account, given the result of looking
/// up its secret. An account whose secret is missing is left out (`None`);
/// another failure of the lookup is passed on. The secret is decoded before
/// the clock is read; the clock is read for the code and again for the
/// seconds left, and a reading before the Unix epoch is reported as an
/// error. Whatever the two readings, the entry is [`code_entry_at`] them.
pub fn code_view_for(account: AccountMetadata, secret: AppResult<String>) -> (r: AppResult<Option<CodeView>>)
    requires
        secret matches Ok(s) && decoded_secret(s@) is Ok ==> account.period > 0 && account.digits <= 9,
    ensures
        match secret {
            Err(e) => if secret_missing(e@) {
                r matches Ok(None)
            } else {
                r == Err::<Option<CodeView>, AppError>(e)
            },
            Ok(s) => {
                &&& decoded_secret(s@) matches Err(e) ==> (r matches Err(err) && err@ == e)
                &&& decoded_secret(s@) is Ok ==> (r matches Err(err) && err@ == clock_error())
                    || exists|t1: u64, t2: u64|
                    #[trigger] code_entry_at(account@, s@, t1, t2) matches Ok(v) && r matches Ok(
                        Some(c),
                    ) && c@ == v
            },
        },
{
    let ghost given = secret;
    let text = match secret {
        Ok(text) => text,
        Err(e) => {
            if is_missing_secret(&e) {
                return Ok(None);
            }
            return Err(e);
        },
    };
    assert(given == Ok::<String, AppError>(text));
    let raw_code = generate_code(&account, text.as_str())?;
    let ghost t1 = choose|now: u64| outcome(Ok::<String, AppError>(raw_code)) == code_at(account@, text@, now);
    proof {
        lemma_code_is_short_ascii(account@, text@, t1);
    }
    let seconds = seconds_remaining(account.period)?;
    let ghost t2 = choose|now: u64| seconds == seconds_left(account.period, now);
    let ghost account_view = account@;
    let entry = entry_from_code(account, raw_code, seconds);
    assert(code_entry_at(account_view, text@, t1, t2) == Ok::<CodeViewView, AppErrorView>(entry@));
    Ok(Some(entry))
}

/// The id of an account created `nanos` nanoseconds after the Unix epoch.
pub open spec fn account_id_at(nanos: u128) -> Seq<char> {
    "acct-"@ + decimal_digits(nanos as nat)
}

/// The id of an account created `nanos` nanoseconds after the Unix epoch.
pub fn account_id_for(nanos: u128) -> (r: String)
    ensures
        r@ == account_id_at(nanos),
{
    let digits = decimal_chars(nanos);
    let mut id = String::from_str("acct-");
    id.append(string_from_chars(digits.as_slice()).as_str());
    id
}

/// A new account's id, from the clock: whatever it reads, the id is
/// [`account_id_at`] that time; a reading before the Unix epoch is
/// reported as an error.
pub fn generate_account_id() -> (r: AppResult<String>)
    ensures
        r matches Ok(id) ==> exists|nanos: u128| id@ == account_id_at(nanos),
        r matches Err(e) ==> e@ == clock_error(),
{
    match current_unix_nanos() {
        Ok(nanos) => Ok(account_id_for(nanos)),
        Err(_) => Err(clock_error_value()),
    }
}


/// An edit changes the account with the requested id and keeps its id and
/// its place in the list.
pub proof fn law_edit_keeps_identity(accounts: Seq<AccountMetadata>, id: Seq<char>, payload: AccountPayloadView)
    ensures
        updated_account(accounts, id, payload) matches Ok((i, account, _)) ==> {
            &&& 0 <= i < accounts.len()
            &&& accounts[i].id@ == id
            &&& account.id == id
            &&& account.sort_order == accounts[i].sort_order
        },
{
    let ids = accounts.map_values(|a: AccountMetadata| a.id@);
    ids.index_of_first_ensures(id);
}

/// After a deletion no account has the deleted id.
pub proof fn law_deleted_account_is_gone(accounts: Seq<AccountMetadata>, id: Seq<char>)
    ensures
        forall|k: int| 0 <= k < kept_accounts(accounts, id).len() ==> #[trigger] kept_accounts(accounts, id)[k].id@ != id,
{
    let keep = |a: AccountMetadata| a.id@ != id;
    accounts.filter_lemma(keep);
}

/// An edit records the submission: every field but the id and the sort
/// order is the normalized submission's, and the secret to store is the
/// submitted one. For a typed submission (no OTP URI) that means the
/// trimmed service name and exactly the submitted digits, period and
/// algorithm.
pub proof fn law_edit_takes_submission(accounts: Seq<AccountMetadata>, id: Seq<char>, payload: AccountPayloadView)
    ensures
        updated_account(accounts, id, payload) matches Ok((i, account, secret)) ==> {
            &&& normalized_payload(payload, Some(accounts[i]@)) matches Ok(n)
            &&& account.service_name == n.service_name
            &&& account.issuer == n.issuer
            &&& account.account_label == n.account_label
            &&& account.digits == n.digits
            &&& account.period == n.period
            &&& account.algorithm == n.algorithm
            &&& account.icon == n.icon
            &&& secret == n.secret
        },
        payload.otp_uri is None ==> (updated_account(accounts, id, payload) matches Ok((i, account, secret))
            ==> {
            &&& account.service_name == trimmed(payload.service_name)
            &&& account.digits == payload.digits
            &&& account.period == payload.period
            &&& account.algorithm == payload.algorithm
            &&& payload_secret(payload.secret) == Ok::<Option<Seq<char>>, AppErrorView>(secret)
        }),
{
}

/// A new account records the submission: every field but the id and the
/// sort order is the normalized submission's, its sort order is one past
/// the largest in the list, and its secret is the submitted one. For a
/// typed submission that means exactly the submitted digits, period and
/// algorithm.
pub proof fn law_new_account_takes_submission(accounts: Seq<AccountMetadata>, payload: AccountPayloadView, id: Seq<char>)
    ensures
        created_account(accounts, payload, id) matches Ok((account, secret)) ==> {
            &&& normalized_payload(payload, None) matches Ok(n)
            &&& account.id == id
            &&& max_sort_order(accounts) < u32::MAX ==> account.sort_order == max_sort_order(accounts) + 1
            &&& account.service_name == n.service_name
            &&& account.issuer == n.issuer
            &&& account.account_label == n.account_label
            &&& account.digits == n.digits
            &&& account.period == n.period
            &&& account.algorithm == n.algorithm
            &&& account.icon == n.icon
            &&& n.secret == Some(secret)
        },
        payload.otp_uri is None ==> (created_account(accounts, payload, id) matches Ok((account, _)) ==> {
            &&& account.service_name == trimmed(payload.service_name)
            &&& account.digits == payload.digits
            &&& account.period == payload.period
            &&& account.algorithm == payload.algorithm
        }),
{
}

/// Accounts created at different clock readings get different ids.
pub proof fn law_ids_are_distinct(nanos1: u128, nanos2: u128)
    requires
        nanos1 != nanos2,
    ensures
        account_id_at(nanos1) != account_id_at(nanos2),
{
    let limit: nat = if nanos1 < nanos2 { nanos2 as nat } else { nanos1 as nat };
    law_numeral_round_trip(nanos1 as nat, limit);
    law_numeral_round_trip(nanos2 as nat, limit);
    if account_id_at(nanos1) == account_id_at(nanos2) {
        let prefix = "acct-"@;
        assert(account_id_at(nanos1).skip(prefix.len() as int) =~= decimal_digits(nanos1 as nat));
        assert(account_id_at(nanos2).skip(prefix.len() as int) =~= decimal_digits(nanos2 as nat));
    }
}

} // verus!
