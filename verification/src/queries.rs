//! The statements by which accounts and capability keys are kept in the
//! store.

use vstd::prelude::*;
use vstd::string::*;
use crate::account::{account_record, account_record_value, Account};
use crate::principal_chain::opt_str_view;
use crate::report_api_key::ReportApiKey;
use crate::statement::{
    advance, begin_statement, commit_statement, name_at, plain_statement, statements_view,
    Statement, StatementView,
};
use crate::text::{copy_bytes, copy_str};
use crate::user::User;
use crate::value::{entries_view, Value, ValueView};
use crate::next_binding;

verus! {

/// The value of a text that may be missing.
pub open spec fn opt_strand(s: Option<Seq<char>>) -> ValueView {
    match s {
        Some(s) => ValueView::Strand(s),
        None => ValueView::Absent,
    }
}

/// The value of bytes that may be missing.
pub open spec fn opt_bytes(b: Option<Seq<u8>>) -> ValueView {
    match b {
        Some(b) => ValueView::Bytes(b),
        None => ValueView::Absent,
    }
}

/// The value of a text that may be missing.
pub fn opt_strand_value(s: &Option<String>) -> (r: Value)
    ensures
        r@ == opt_strand(opt_str_view(*s)),
{
    match s {
        Some(s) => Value::Strand(s.clone()),
        None => Value::Absent,
    }
}

/// The value of bytes that may be missing.
pub fn opt_bytes_value(b: &Option<Vec<u8>>) -> (r: Value)
    ensures
        r@ == opt_bytes(crate::text::opt_bytes_view(*b)),
{
    match b {
        Some(b) => Value::Bytes(copy_bytes(b.as_slice())),
        None => Value::Absent,
    }
}

/// The record identifier of the capability key with the given id.
pub open spec fn report_api_key_record(id: u32) -> ValueView {
    ValueView::Record("report_api_key"@, Box::new(ValueView::Int(id as int)))
}

/// The record identifier of the capability key with the given id.
pub fn report_api_key_record_value(id: u32) -> (r: Value)
    ensures
        r@ == report_api_key_record(id),
{
    let key = Value::Int(id as i64);
    assert(key@ == ValueView::Int(id as int));
    Value::record("report_api_key", key)
}

/// The statement that lists the capability keys that were not revoked.
pub fn list_report_api_keys_query() -> (r: Statement)
    ensures
        r@ == (StatementView {
            text: "SELECT * FROM report_api_key WHERE type::is::none(revoked_at)"@,
            bindings: Seq::empty(),
        }),
{
    plain_statement("SELECT * FROM report_api_key WHERE type::is::none(revoked_at)")
}

/// The statement that creates a capability key, where the counter holds `n`.
pub open spec fn create_report_api_key_spec(
    id: u32,
    description: Option<Seq<char>>,
    created_by: User,
    n: u64,
) -> StatementView {
    StatementView {
        text: "CREATE $"@ + name_at(n, 0) + " CONTENT { description: $"@ + name_at(n, 1)
            + ", created_by: $"@ + name_at(n, 2) + " }"@,
        bindings: seq![
            (name_at(n, 0), report_api_key_record(id)),
            (name_at(n, 1), opt_strand(description)),
            (name_at(n, 2), created_by.record()),
        ],
    }
}

/// Renders the statement that creates a capability key.
pub fn create_report_api_key_query(report_api_key: &ReportApiKey, counter: &mut u64) -> (r:
    Statement)
    ensures
        r@ == create_report_api_key_spec(
            report_api_key.id,
            opt_str_view(report_api_key.description),
            report_api_key.created_by,
            *old(counter),
        ),
        *final(counter) == advance(*old(counter), 3),
{
    reveal_with_fuel(advance, 4);
    let key_name = next_binding(counter);
    let description_name = next_binding(counter);
    let created_by_name = next_binding(counter);
    let mut text = copy_str("CREATE $");
    text.append(key_name.as_str());
    text.append(" CONTENT { description: $");
    text.append(description_name.as_str());
    text.append(", created_by: $");
    text.append(created_by_name.as_str());
    text.append(" }");
    let mut bindings: Vec<(String, Value)> = Vec::new();
    bindings.push((key_name, report_api_key_record_value(report_api_key.id)));
    bindings.push((description_name, opt_strand_value(&report_api_key.description)));
    bindings.push((created_by_name, report_api_key.created_by.to_record()));
    let r = Statement { text, bindings };
    proof {
        let expected = create_report_api_key_spec(
            report_api_key.id,
            opt_str_view(report_api_key.description),
            report_api_key.created_by,
            *old(counter),
        );
        assert(r@.text =~= expected.text);
        assert(r@.bindings =~= expected.bindings);
    }
    r
}

/// The statement that revokes a capability key unless it is revoked
/// already, where the counter holds `n`.
pub open spec fn revoke_report_api_key_spec(id: u32, revoked_by: User, n: u64) -> StatementView {
    StatementView {
        text: "UPDATE $"@ + name_at(n, 0) + " SET revoked_at = time::now(), revoked_by = $"@
            + name_at(n, 1) + " WHERE revoked_at IS NONE"@,
        bindings: seq![
            (name_at(n, 0), report_api_key_record(id)),
            (name_at(n, 1), revoked_by.record()),
        ],
    }
}

/// Renders the statement that revokes a capability key.
pub fn revoke_report_api_key_query(report_api_key_id: u32, revoked_by: &User, counter: &mut u64) -> (r:
    Statement)
    ensures
        r@ == revoke_report_api_key_spec(report_api_key_id, *revoked_by, *old(counter)),
        *final(counter) == advance(*old(counter), 2),
{
    reveal_with_fuel(advance, 3);
    let key_name = next_binding(counter);
    let revoked_by_name = next_binding(counter);
    let mut text = copy_str("UPDATE $");
    text.append(key_name.as_str());
    text.append(" SET revoked_at = time::now(), revoked_by = $");
    text.append(revoked_by_name.as_str());
    text.append(" WHERE revoked_at IS NONE");
    let mut bindings: Vec<(String, Value)> = Vec::new();
    bindings.push((key_name, report_api_key_record_value(report_api_key_id)));
    bindings.push((revoked_by_name, revoked_by.to_record()));
    let r = Statement { text, bindings };
    proof {
        let expected = revoke_report_api_key_spec(report_api_key_id, *revoked_by, *old(counter));
        assert(r@.text =~= expected.text);
        assert(r@.bindings =~= expected.bindings);
    }
    r
}

/// The statement that asks whether a capability key is still valid, where
/// the counter holds `n`.
pub open spec fn report_api_key_is_valid_spec(id: u32, n: u64) -> StatementView {
    StatementView {
        text: "SELECT type::is::none(revoked_at) AS valid FROM $"@ + name_at(n, 0),
        bindings: seq![(name_at(n, 0), report_api_key_record(id))],
    }
}

/// Renders the statement that asks whether a capability key is still valid.
pub fn report_api_key_is_valid_query(report_api_key_id: u32, counter: &mut u64) -> (r: Statement)
    ensures
        r@ == report_api_key_is_valid_spec(report_api_key_id, *old(counter)),
        *final(counter) == advance(*old(counter), 1),
{
    reveal_with_fuel(advance, 2);
    let key_name = next_binding(counter);
    let mut text = copy_str("SELECT type::is::none(revoked_at) AS valid FROM $");
    text.append(key_name.as_str());
    let mut bindings: Vec<(String, Value)> = Vec::new();
    bindings.push((key_name, report_api_key_record_value(report_api_key_id)));
    let r = Statement { text, bindings };
    proof {
        let expected = report_api_key_is_valid_spec(report_api_key_id, *old(counter));
        assert(r@.text =~= expected.text);
        assert(r@.bindings =~= expected.bindings);
    }
    r
}

/// The statement that reads an account, where the counter holds `n`.
pub open spec fn get_account_by_id_spec(account_id: Seq<char>, n: u64) -> StatementView {
    StatementView {
        text: "SELECT * FROM ONLY $"@ + name_at(n, 0),
        bindings: seq![(name_at(n, 0), account_record(account_id))],
    }
}

/// Renders the statement that reads an account.
pub fn get_account_by_id(account_id: &str, counter: &mut u64) -> (r: Statement)
    ensures
        r@ == get_account_by_id_spec(account_id@, *old(counter)),
        *final(counter) == advance(*old(counter), 1),
{
    reveal_with_fuel(advance, 2);
    let account_name = next_binding(counter);
    let mut text = copy_str("SELECT * FROM ONLY $");
    text.append(account_name.as_str());
    let mut bindings: Vec<(String, Value)> = Vec::new();
    bindings.push((account_name, account_record_value(account_id)));
    let r = Statement { text, bindings };
    proof {
        let expected = get_account_by_id_spec(account_id@, *old(counter));
        assert(r@.text =~= expected.text);
        assert(r@.bindings =~= expected.bindings);
    }
    r
}

/// The statement that marks an account as deleted, where the counter holds
/// `n`.
pub open spec fn delete_account_spec(account_id: Seq<char>, principal: User, n: u64) -> StatementView {
    StatementView {
        text: "UPDATE $"@ + name_at(n, 0) + " CONTENT { deleted_at: time::now(), deleted_by: $"@
            + name_at(n, 1) + " }"@,
        bindings: seq![
            (name_at(n, 0), account_record(account_id)),
            (name_at(n, 1), principal.record()),
        ],
    }
}

/// Renders the statement that marks an account as deleted.
pub fn delete_account_query(account: &Account, principal: &User, counter: &mut u64) -> (r:
    Statement)
    ensures
        r@ == delete_account_spec(account.id@, *principal, *old(counter)),
        *final(counter) == advance(*old(counter), 2),
{
    reveal_with_fuel(advance, 3);
    let account_name = next_binding(counter);
    let deleted_by_name = next_binding(counter);
    let mut text = copy_str("UPDATE $");
    text.append(account_name.as_str());
    text.append(" CONTENT { deleted_at: time::now(), deleted_by: $");
    text.append(deleted_by_name.as_str());
    text.append(" }");
    let mut bindings: Vec<(String, Value)> = Vec::new();
    bindings.push((account_name, account.to_record()));
    bindings.push((deleted_by_name, principal.to_record()));
    let r = Statement { text, bindings };
    proof {
        let expected = delete_account_spec(account.id@, *principal, *old(counter));
        assert(r@.text =~= expected.text);
        assert(r@.bindings =~= expected.bindings);
    }
    r
}

/// The statement that creates the record of an account, where the counter
/// holds `n`.
pub open spec fn create_account_record_spec(
    account_id: Seq<char>,
    endpoint: Option<Seq<char>>,
    service_data_surrealdb_url: Option<Seq<char>>,
    salt: Seq<u8>,
    api_private_key: Option<Seq<u8>>,
    principal: User,
    n: u64,
) -> StatementView {
    StatementView {
        text: "CREATE $"@ + name_at(n, 0) + " CONTENT { endpoint: $"@ + name_at(n, 1)
            + ", service_data_surrealdb_url: $"@ + name_at(n, 2) + ", salt: $"@ + name_at(n, 3)
            + ", api_private_key: $"@ + name_at(n, 4) + ", created_by: $"@ + name_at(n, 5)
            + " } RETURN NONE"@,
        bindings: seq![
            (name_at(n, 0), account_record(account_id)),
            (name_at(n, 1), opt_strand(endpoint)),
            (name_at(n, 2), opt_strand(service_data_surrealdb_url)),
            (name_at(n, 3), ValueView::Bytes(salt)),
            (name_at(n, 4), opt_bytes(api_private_key)),
            (name_at(n, 5), principal.record()),
        ],
    }
}

/// The statement that gives a user access to an account, where the counter
/// holds `n`.
pub open spec fn relate_access_spec(account_id: Seq<char>, principal: User, n: u64) -> StatementView {
    StatementView {
        text: "RELATE $"@ + name_at(n, 0) + "->has_access->$"@ + name_at(n, 1) + " RETURN NONE"@,
        bindings: seq![
            (name_at(n, 0), principal.record()),
            (name_at(n, 1), account_record(account_id)),
        ],
    }
}

/// Renders the statement that creates the record of an account.
pub fn create_account_record(account: &Account, principal: &User, counter: &mut u64) -> (r:
    Statement)
    ensures
        r@ == create_account_record_spec(
            account.id@,
            opt_str_view(account.endpoint),
            opt_str_view(account.service_data_surrealdb_url),
            account.salt@,
            crate::text::opt_bytes_view(account.api_private_key),
            *principal,
            *old(counter),
        ),
        *final(counter) == advance(*old(counter), 6),
{
    reveal_with_fuel(advance, 7);
    let account_name = next_binding(counter);
    let endpoint_name = next_binding(counter);
    let url_name = next_binding(counter);
    let salt_name = next_binding(counter);
    let key_name = next_binding(counter);
    let created_by_name = next_binding(counter);
    let mut text = copy_str("CREATE $");
    text.append(account_name.as_str());
    text.append(" CONTENT { endpoint: $");
    text.append(endpoint_name.as_str());
    text.append(", service_data_surrealdb_url: $");
    text.append(url_name.as_str());
    text.append(", salt: $");
    text.append(salt_name.as_str());
    text.append(", api_private_key: $");
    text.append(key_name.as_str());
    text.append(", created_by: $");
    text.append(created_by_name.as_str());
    text.append(" } RETURN NONE");
    let mut bindings: Vec<(String, Value)> = Vec::new();
    bindings.push((account_name, account.to_record()));
    bindings.push((endpoint_name, opt_strand_value(&account.endpoint)));
    bindings.push((url_name, opt_strand_value(&account.service_data_surrealdb_url)));
    bindings.push((salt_name, Value::Bytes(copy_bytes(account.salt.as_slice()))));
    bindings.push((key_name, opt_bytes_value(&account.api_private_key)));
    bindings.push((created_by_name, principal.to_record()));
    let r = Statement { text, bindings };
    proof {
        let expected = create_account_record_spec(
            account.id@,
            opt_str_view(account.endpoint),
            opt_str_view(account.service_data_surrealdb_url),
            account.salt@,
            crate::text::opt_bytes_view(account.api_private_key),
            *principal,
            *old(counter),
        );
        assert(r@.text =~= expected.text);
        assert(r@.bindings =~= expected.bindings);
    }
    r
}

/// Renders the statement that gives a user access to an account.
pub fn relate_access(account: &Account, principal: &User, counter: &mut u64) -> (r: Statement)
    ensures
        r@ == relate_access_spec(account.id@, *principal, *old(counter)),
        *final(counter) == advance(*old(counter), 2),
{
    reveal_with_fuel(advance, 3);
    let user_name = next_binding(counter);
    let account_name = next_binding(counter);
    let mut text = copy_str("RELATE $");
    text.append(user_name.as_str());
    text.append("->has_access->$");
    text.append(account_name.as_str());
    text.append(" RETURN NONE");
    let mut bindings: Vec<(String, Value)> = Vec::new();
    bindings.push((user_name, principal.to_record()));
    bindings.push((account_name, account.to_record()));
    let r = Statement { text, bindings };
    proof {
        let expected = relate_access_spec(account.id@, *principal, *old(counter));
        assert(r@.text =~= expected.text);
        assert(r@.bindings =~= expected.bindings);
    }
    r
}

/// Renders the transaction that creates an account and gives its creator
/// access to it: the two happen together or not at all.
pub fn create_account_query(account: &Account, principal: &User, counter: &mut u64) -> (r: Vec<
    Statement,
>)
    ensures
        statements_view(r@) == seq![
            begin_statement(),
            create_account_record_spec(
                account.id@,
                opt_str_view(account.endpoint),
                opt_str_view(account.service_data_surrealdb_url),
                account.salt@,
                crate::text::opt_bytes_view(account.api_private_key),
                *principal,
                *old(counter),
            ),
            relate_access_spec(account.id@, *principal, advance(*old(counter), 6)),
            commit_statement(),
        ],
        *final(counter) == advance(*old(counter), 8),
{
    proof {
        crate::statement::lemma_advance_add(*old(counter), 6, 2);
    }
    let mut out: Vec<Statement> = Vec::new();
    out.push(plain_statement("BEGIN TRANSACTION;"));
    out.push(create_account_record(account, principal, counter));
    out.push(relate_access(account, principal, counter));
    out.push(plain_statement("COMMIT TRANSACTION;"));
    assert(statements_view(out@) =~= seq![
        begin_statement(),
        create_account_record_spec(
            account.id@,
            opt_str_view(account.endpoint),
            opt_str_view(account.service_data_surrealdb_url),
            account.salt@,
            crate::text::opt_bytes_view(account.api_private_key),
            *principal,
            *old(counter),
        ),
        relate_access_spec(account.id@, *principal, advance(*old(counter), 6)),
        commit_statement(),
    ]);
    out
}

} // verus!
