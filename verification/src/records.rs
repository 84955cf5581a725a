//! Reading the records of accounts, users and capability keys from the
//! documents that the storage engine hands out.

use vstd::prelude::*;
use crate::account::Account;
use crate::principal_chain::opt_str_view;
use crate::report_api_key::{ReportApiKey, ReportApiKeyIsValidQueryResponse};
use crate::shapes::{
    at_most_one, entry_value, has_at_most_one, instant_of, parse_instant, parse_list,
    parse_row_list, rows_model, FromDocument, Malformed,
};
use crate::surrealdb_deserializers::{
    bytes_spec, deserialize_bytes, deserialize_optional_bytes, deserialize_string,
    deserialize_u32, deserialize_uuid, optional_bytes_spec, string_spec, u32_spec, uuid_spec,
};
use crate::text::opt_bytes_view;
use crate::timestamp::Timestamp;
use crate::user::User;
use crate::value::{entries_view, lemma_object_view, lookup, Value, ValueView};

verus! {

/// The user that an entry stands for, where it may stand for none: a value
/// that is missing, null or absent stands for none.
pub open spec fn parse_optional_user(v: Option<ValueView>) -> Option<Option<User>> {
    match v {
        None => Some(None),
        Some(ValueView::Null) => Some(None),
        Some(ValueView::Absent) => Some(None),
        Some(other) => match uuid_spec(other) {
            Some(id) => Some(Some(User { id })),
            None => None,
        },
    }
}

/// The text that an entry stands for, where it may stand for none.
pub open spec fn parse_optional_text(v: Option<ValueView>) -> Option<Option<Seq<char>>> {
    match v {
        None => Some(None),
        Some(ValueView::Null) => Some(None),
        Some(ValueView::Absent) => Some(None),
        Some(ValueView::Strand(s)) => Some(Some(s)),
        Some(_) => None,
    }
}

/// The bytes that an entry stands for, where it may stand for none.
pub open spec fn parse_optional_bytes(v: Option<ValueView>) -> Option<Option<Seq<u8>>> {
    match v {
        None => Some(None),
        Some(other) => optional_bytes_spec(other),
    }
}

/// The value of an entry, as a model.
pub open spec fn opt_view(v: Option<&Value>) -> Option<ValueView> {
    match v {
        Some(v) => Some(v@),
        None => None,
    }
}

/// Reads a user that may be missing.
pub fn optional_user(v: Option<&Value>) -> (r: Option<Option<User>>)
    ensures
        r == parse_optional_user(opt_view(v)),
{
    match v {
        None => Some(None),
        Some(Value::Null) => Some(None),
        Some(Value::Absent) => Some(None),
        Some(other) => match deserialize_uuid(other) {
            Ok(id) => Some(Some(User { id })),
            Err(_) => None,
        },
    }
}

/// Reads a text that may be missing.
pub fn optional_text(v: Option<&Value>) -> (r: Option<Option<String>>)
    ensures
        match r {
            Some(text) => parse_optional_text(opt_view(v)) == Some(opt_str_view(text)),
            None => parse_optional_text(opt_view(v)) is None,
        },
{
    match v {
        None => Some(None),
        Some(Value::Null) => Some(None),
        Some(Value::Absent) => Some(None),
        Some(Value::Strand(s)) => Some(Some(s.clone())),
        Some(_) => None,
    }
}

/// Reads bytes that may be missing.
pub fn optional_bytes(v: Option<&Value>) -> (r: Option<Option<Vec<u8>>>)
    ensures
        match r {
            Some(bytes) => parse_optional_bytes(opt_view(v)) == Some(opt_bytes_view(bytes)),
            None => parse_optional_bytes(opt_view(v)) is None,
        },
{
    match v {
        None => Some(None),
        Some(other) => match deserialize_optional_bytes(other) {
            Ok(bytes) => Some(bytes),
            Err(_) => None,
        },
    }
}

/// No key of a record occurs twice.
pub open spec fn record_keys_once(entries: Seq<(Seq<char>, ValueView)>) -> bool {
    forall|i: int, j: int|
        0 <= i < j < entries.len() ==> (#[trigger] entries[i]).0 != (#[trigger] entries[j]).0
}

/// Whether no key of a record occurs twice.
pub fn has_keys_once(entries: &Vec<(String, Value)>) -> (r: bool)
    ensures
        r == record_keys_once(entries_view(entries@)),
{
    let ghost all = entries_view(entries@);
    let mut j: usize = 0;
    while j < entries.len()
        invariant
            all == entries_view(entries@),
            j <= entries@.len(),
            forall|a: int, b: int|
                0 <= a < b < j ==> (#[trigger] all[a]).0 != (#[trigger] all[b]).0,
        decreases entries@.len() - j,
    {
        let mut i: usize = 0;
        while i < j
            invariant
                all == entries_view(entries@),
                i <= j < entries@.len(),
                forall|a: int| 0 <= a < i ==> (#[trigger] all[a]).0 != all[j as int].0,
            decreases j - i,
        {
            if crate::text::str_eq(entries[i].0.as_str(), entries[j].0.as_str()) {
                assert(all[i as int].0 == all[j as int].0);
                return false;
            }
            i += 1;
        }
        j += 1;
    }
    true
}

/// Model of a capability key's record.
pub ghost struct ReportApiKeyModel {
    pub id: u32,
    pub description: Option<Seq<char>>,
    pub created_at: Option<Timestamp>,
    pub created_by: User,
    pub revoked_at: Option<Timestamp>,
    pub revoked_by: Option<User>,
}

/// The model of a capability key's record.
pub open spec fn report_api_key_model(k: &ReportApiKey) -> ReportApiKeyModel {
    ReportApiKeyModel {
        id: k.id,
        description: opt_str_view(k.description),
        created_at: k.created_at,
        created_by: k.created_by,
        revoked_at: k.revoked_at,
        revoked_by: k.revoked_by,
    }
}

/// The capability key that a document stands for: an object, no key of
/// which occurs twice, with an `id` that stands for a 32-bit number and a
/// `created_by` that stands for a user. Its description, its two instants
/// and the user who revoked it may be missing. Other entries are passed
/// over.
pub open spec fn parse_report_api_key(v: ValueView) -> Option<ReportApiKeyModel> {
    match v {
        ValueView::Object(entries) => {
            let id = match lookup(entries, "id"@) {
                Some(found) => u32_spec(found),
                None => None,
            };
            let created_by = match lookup(entries, "created_by"@) {
                Some(found) => uuid_spec(found),
                None => None,
            };
            let description = parse_optional_text(lookup(entries, "description"@));
            let created_at = parse_instant(lookup(entries, "created_at"@));
            let revoked_at = parse_instant(lookup(entries, "revoked_at"@));
            let revoked_by = parse_optional_user(lookup(entries, "revoked_by"@));
            if record_keys_once(entries) && id is Some && created_by is Some && description
                is Some && created_at is Some && revoked_at is Some && revoked_by is Some {
                Some(
                    ReportApiKeyModel {
                        id: id->0,
                        description: description->0,
                        created_at: created_at->0,
                        created_by: User { id: created_by->0 },
                        revoked_at: revoked_at->0,
                        revoked_by: revoked_by->0,
                    },
                )
            } else {
                None
            }
        },
        _ => None,
    }
}

impl ReportApiKey {
    /// Reads the record of a capability key from a document.
    pub fn parse(v: &Value) -> (r: Result<ReportApiKey, Malformed>)
        ensures
            match r {
                Ok(key) => parse_report_api_key(v@) == Some(report_api_key_model(&key)),
                Err(_) => parse_report_api_key(v@) is None,
            },
    {
        let entries = match v {
            Value::Object(entries) => entries,
            _ => {
                return Err(Malformed);
            },
        };
        proof {
            lemma_object_view(*entries);
        }
        if !has_keys_once(entries) {
            return Err(Malformed);
        }
        let id = match entry_value(entries, "id") {
            Some(found) => match deserialize_u32(found) {
                Ok(id) => id,
                Err(e) => {
                    return Err(e);
                },
            },
            None => {
                return Err(Malformed);
            },
        };
        let created_by = match entry_value(entries, "created_by") {
            Some(found) => match deserialize_uuid(found) {
                Ok(id) => User { id },
                Err(e) => {
                    return Err(e);
                },
            },
            None => {
                return Err(Malformed);
            },
        };
        match (
            optional_text(entry_value(entries, "description")),
            instant_of(entry_value(entries, "created_at")),
            instant_of(entry_value(entries, "revoked_at")),
            optional_user(entry_value(entries, "revoked_by")),
        ) {
            (Some(description), Some(created_at), Some(revoked_at), Some(revoked_by)) => Ok(
                ReportApiKey { id, description, created_at, created_by, revoked_at, revoked_by },
            ),
            _ => Err(Malformed),
        }
    }
}

/// Model of an account's record.
pub ghost struct AccountModel {
    pub id: Seq<char>,
    pub endpoint: Option<Seq<char>>,
    pub service_data_surrealdb_url: Option<Seq<char>>,
    pub salt: Seq<u8>,
    pub api_private_key: Option<Seq<u8>>,
    pub created_at: Option<Timestamp>,
    pub created_by: Option<User>,
    pub deleted_at: Option<Timestamp>,
    pub deleted_by: Option<User>,
}

/// The model of an account's record.
pub open spec fn account_model(a: &Account) -> AccountModel {
    AccountModel {
        id: a.id@,
        endpoint: opt_str_view(a.endpoint),
        service_data_surrealdb_url: opt_str_view(a.service_data_surrealdb_url),
        salt: a.salt@,
        api_private_key: opt_bytes_view(a.api_private_key),
        created_at: a.created_at,
        created_by: a.created_by,
        deleted_at: a.deleted_at,
        deleted_by: a.deleted_by,
    }
}

/// The account that a document stands for: an object, no key of which
/// occurs twice, with an `id` that stands for a text and a `salt` of bytes.
/// Everything else of an account may be missing. Other entries are passed
/// over.
pub open spec fn parse_account(v: ValueView) -> Option<AccountModel> {
    match v {
        ValueView::Object(entries) => {
            let id = match lookup(entries, "id"@) {
                Some(found) => string_spec(found),
                None => None,
            };
            let salt = match lookup(entries, "salt"@) {
                Some(found) => bytes_spec(found),
                None => None,
            };
            let endpoint = parse_optional_text(lookup(entries, "endpoint"@));
            let url = parse_optional_text(lookup(entries, "service_data_surrealdb_url"@));
            let key = parse_optional_bytes(lookup(entries, "api_private_key"@));
            let created_at = parse_instant(lookup(entries, "created_at"@));
            let created_by = parse_optional_user(lookup(entries, "created_by"@));
            let deleted_at = parse_instant(lookup(entries, "deleted_at"@));
            let deleted_by = parse_optional_user(lookup(entries, "deleted_by"@));
            if record_keys_once(entries) && id is Some && salt is Some && endpoint is Some && url
                is Some && key is Some && created_at is Some && created_by is Some && deleted_at
                is Some && deleted_by is Some {
                Some(
                    AccountModel {
                        id: id->0,
                        endpoint: endpoint->0,
                        service_data_surrealdb_url: url->0,
                        salt: salt->0,
                        api_private_key: key->0,
                        created_at: created_at->0,
                        created_by: created_by->0,
                        deleted_at: deleted_at->0,
                        deleted_by: deleted_by->0,
                    },
                )
            } else {
                None
            }
        },
        _ => None,
    }
}

impl Account {
    /// Reads the record of an account from a document.
    pub fn parse(v: &Value) -> (r: Result<Account, Malformed>)
        ensures
            match r {
                Ok(account) => parse_account(v@) == Some(account_model(&account)),
                Err(_) => parse_account(v@) is None,
            },
    {
        let entries = match v {
            Value::Object(entries) => entries,
            _ => {
                return Err(Malformed);
            },
        };
        proof {
            lemma_object_view(*entries);
        }
        if !has_keys_once(entries) {
            return Err(Malformed);
        }
        let id = match entry_value(entries, "id") {
            Some(found) => match deserialize_string(found) {
                Ok(id) => id,
                Err(e) => {
                    return Err(e);
                },
            },
            None => {
                return Err(Malformed);
            },
        };
        let salt = match entry_value(entries, "salt") {
            Some(found) => match deserialize_bytes(found) {
                Ok(salt) => salt,
                Err(e) => {
                    return Err(e);
                },
            },
            None => {
                return Err(Malformed);
            },
        };
        let endpoint = match optional_text(entry_value(entries, "endpoint")) {
            Some(endpoint) => endpoint,
            None => {
                return Err(Malformed);
            },
        };
        let service_data_surrealdb_url = match optional_text(
            entry_value(entries, "service_data_surrealdb_url"),
        ) {
            Some(url) => url,
            None => {
                return Err(Malformed);
            },
        };
        let api_private_key = match optional_bytes(entry_value(entries, "api_private_key")) {
            Some(key) => key,
            None => {
                return Err(Malformed);
            },
        };
        match (
            instant_of(entry_value(entries, "created_at")),
            optional_user(entry_value(entries, "created_by")),
            instant_of(entry_value(entries, "deleted_at")),
            optional_user(entry_value(entries, "deleted_by")),
        ) {
            (Some(created_at), Some(created_by), Some(deleted_at), Some(deleted_by)) => Ok(
                Account {
                    id,
                    endpoint,
                    service_data_surrealdb_url,
                    salt,
                    api_private_key,
                    created_at,
                    created_by,
                    deleted_at,
                    deleted_by,
                },
            ),
            _ => Err(Malformed),
        }
    }
}

impl FromDocument for Account {
    type Model = AccountModel;

    open spec fn model(&self) -> AccountModel {
        account_model(self)
    }

    open spec fn parse_spec(v: ValueView) -> Option<AccountModel> {
        parse_account(v)
    }

    fn from_document(v: &Value) -> (r: Result<Self, Malformed>) {
        Account::parse(v)
    }
}

/// Whether a capability key is valid, as a document says: an object whose
/// first entry `valid` is a boolean.
pub open spec fn parse_is_valid(v: ValueView) -> Option<bool> {
    match v {
        ValueView::Object(entries) => match lookup(entries, "valid"@) {
            Some(ValueView::Bool(valid)) => Some(valid),
            _ => None,
        },
        _ => None,
    }
}

impl ReportApiKeyIsValidQueryResponse {
    /// Reads what the store says of the validity of a capability key.
    pub fn parse(v: &Value) -> (r: Result<ReportApiKeyIsValidQueryResponse, Malformed>)
        ensures
            match r {
                Ok(response) => parse_is_valid(v@) == Some(response.valid),
                Err(_) => parse_is_valid(v@) is None,
            },
    {
        match v {
            Value::Object(entries) => {
                proof {
                    lemma_object_view(*entries);
                }
                match entry_value(entries, "valid") {
                    Some(Value::Bool(valid)) => Ok(
                        ReportApiKeyIsValidQueryResponse { valid: *valid },
                    ),
                    _ => Err(Malformed),
                }
            },
            _ => Err(Malformed),
        }
    }
}

/// The private key that the record of an account holds, as a document says:
/// an object whose first entry `api_private_key`, if there is one, is bytes
/// or nothing.
pub open spec fn parse_api_private_key(v: ValueView) -> Option<Option<Seq<u8>>> {
    match v {
        ValueView::Object(entries) => parse_optional_bytes(lookup(entries, "api_private_key"@)),
        _ => None,
    }
}

/// Reads the private key that the record of an account holds.
pub fn api_private_key_of(v: &Value) -> (r: Result<Option<Vec<u8>>, Malformed>)
    ensures
        match r {
            Ok(key) => parse_api_private_key(v@) == Some(opt_bytes_view(key)),
            Err(_) => parse_api_private_key(v@) is None,
        },
{
    match v {
        Value::Object(entries) => {
            proof {
                lemma_object_view(*entries);
            }
            match optional_bytes(entry_value(entries, "api_private_key")) {
                Some(key) => Ok(key),
                None => Err(Malformed),
            }
        },
        _ => Err(Malformed),
    }
}

/// The accounts of a user, as a document says: an object whose first entry
/// `accounts`, if there is one, is a list of accounts. No entry stands for
/// no accounts.
pub open spec fn parse_accounts(v: ValueView) -> Option<Seq<AccountModel>> {
    match v {
        ValueView::Object(entries) => match lookup(entries, "accounts"@) {
            Some(list) => parse_row_list::<Account>(list),
            None => Some(Seq::empty()),
        },
        _ => None,
    }
}

/// Reads the accounts of a user.
pub fn accounts_of(v: &Value) -> (r: Result<Vec<Account>, Malformed>)
    ensures
        match r {
            Ok(accounts) => parse_accounts(v@) == Some(rows_model(accounts@)),
            Err(_) => parse_accounts(v@) is None,
        },
{
    match v {
        Value::Object(entries) => {
            proof {
                lemma_object_view(*entries);
            }
            match entry_value(entries, "accounts") {
                Some(list) => parse_list::<Account>(list),
                None => {
                    let none: Vec<Account> = Vec::new();
                    assert(rows_model(none@) =~= Seq::<AccountModel>::empty());
                    Ok(none)
                },
            }
        },
        _ => Err(Malformed),
    }
}

/// The number of accounts of a user, as a document says: an object whose
/// first entry `num_user_accounts` is a number that fits in 32 bits.
pub open spec fn parse_num_user_accounts(v: ValueView) -> Option<u32> {
    match v {
        ValueView::Object(entries) => match lookup(entries, "num_user_accounts"@) {
            Some(ValueView::Int(n)) => if 0 <= n <= u32::MAX {
                Some(n as u32)
            } else {
                None
            },
            _ => None,
        },
        _ => None,
    }
}

/// Reads the number of accounts of a user.
pub fn num_user_accounts_of(v: &Value) -> (r: Result<u32, Malformed>)
    ensures
        match r {
            Ok(n) => parse_num_user_accounts(v@) == Some(n),
            Err(_) => parse_num_user_accounts(v@) is None,
        },
{
    match v {
        Value::Object(entries) => {
            proof {
                lemma_object_view(*entries);
            }
            match entry_value(entries, "num_user_accounts") {
                Some(Value::Int(n)) => if 0 <= *n && *n <= 0xffff_ffff {
                    Ok(*n as u32)
                } else {
                    Err(Malformed)
                },
                _ => Err(Malformed),
            }
        },
        _ => Err(Malformed),
    }
}

} // verus!
