//! Statements for the storage engine: the text of each operation, with the
//! values it refers to bound to freshly named parameters.

use vstd::prelude::*;
use vstd::string::*;
use crate::operation::{Operation, OperationView};
use crate::principal_chain::{encode_chain, ChainModel, PrincipalChainId};
use crate::resource::{encode_id, resource_record, IdModel, ResourceId};
use crate::text::copy_str;
use crate::timestamp::Timestamp;
use crate::value::{entries_view, Value, ValueView};
use crate::{binding_name, next_binding, next_number};

verus! {

/// Model of a [`Statement`].
pub ghost struct StatementView {
    pub text: Seq<char>,
    pub bindings: Seq<(Seq<char>, ValueView)>,
}

/// One statement: its text, and the values of the parameters that the text
/// names.
#[derive(Debug, PartialEq, Eq)]
pub struct Statement {
    pub text: String,
    pub bindings: Vec<(String, Value)>,
}

impl View for Statement {
    type V = StatementView;

    open spec fn view(&self) -> StatementView {
        StatementView { text: self.text@, bindings: entries_view(self.bindings@) }
    }
}

/// The number that a counter holds after it handed out `k` names.
pub open spec fn advance(n: u64, k: nat) -> u64
    decreases k,
{
    if k == 0 {
        n
    } else {
        next_number(advance(n, (k - 1) as nat))
    }
}

/// The name that a counter which held `n` hands out after `k` others.
pub open spec fn name_at(n: u64, k: nat) -> Seq<char> {
    binding_name(advance(n, k))
}

/// The record identifier of a chain's record.
pub open spec fn chain_record(id: ChainModel) -> ValueView {
    ValueView::Record("principal_chain"@, Box::new(encode_chain(id)))
}

/// The text that upserts a resource: a new row takes both instants, an
/// existing row has its `last_seen_at` advanced to the later of the two.
pub open spec fn upsert_resource_text(id: Seq<char>, first: Seq<char>, last: Seq<char>) -> Seq<
    char,
> {
    "INSERT INTO resource (id, first_seen_at, last_seen_at) VALUES ($"@ + id + ", $"@ + first
        + ", $"@ + last + ") ON DUPLICATE KEY UPDATE last_seen_at = time::max([last_seen_at, $"@
        + last + "]) RETURN NONE;"@
}

/// The text that merges attributes into a resource.
pub open spec fn merge_attributes_text(id: Seq<char>, attributes: Seq<char>) -> Seq<char> {
    "UPDATE $"@ + id + " MERGE { attributes: $"@ + attributes + " } RETURN NONE;"@
}

/// The text that upserts a principal chain.
pub open spec fn upsert_chain_text(id: Seq<char>, first: Seq<char>, last: Seq<char>) -> Seq<char> {
    "INSERT INTO principal_chain (id, first_seen_at, last_seen_at) VALUES ($"@ + id + ", $"@
        + first + ", $"@ + last
        + ") ON DUPLICATE KEY UPDATE last_seen_at = time::max([last_seen_at, $"@ + last
        + "]) RETURN NONE;"@
}

/// What the text of an event upsert says of the mark of direct observation
/// when the edge exists: a direct observation sets the mark; any other
/// leaves it as it is.
pub open spec fn direct_update_text(direct: bool) -> Seq<char> {
    if direct {
        ", has_direct_principal_chain = true"@
    } else {
        ""@
    }
}

/// The text that upserts an event edge.
pub open spec fn upsert_event_text(
    principal: Seq<char>,
    resource: Seq<char>,
    ty: Seq<char>,
    chain: Seq<char>,
    flag: Seq<char>,
    first: Seq<char>,
    last: Seq<char>,
    direct: bool,
) -> Seq<char> {
    "INSERT RELATION INTO event (in, out, type, principal_chains, has_direct_principal_chain, first_seen_at, last_seen_at) VALUES ($"@
        + principal + ", $"@ + resource + ", $"@ + ty + ", [$"@ + chain + "], $"@ + flag + ", $"@
        + first + ", $"@ + last + ") ON DUPLICATE KEY UPDATE principal_chains += $"@ + chain
        + ", last_seen_at = time::max([last_seen_at, $"@ + last + "])"@ + direct_update_text(
        direct,
    ) + " RETURN NONE;"@
}

/// The statement for an operation, where the counter holds `n`.
pub open spec fn operation_statement(op: OperationView, n: u64) -> StatementView {
    match op {
        OperationView::UpsertResource { id, first_seen_at, last_seen_at } => StatementView {
            text: upsert_resource_text(name_at(n, 0), name_at(n, 1), name_at(n, 2)),
            bindings: seq![
                (name_at(n, 0), encode_id(id)),
                (name_at(n, 1), ValueView::Datetime(first_seen_at)),
                (name_at(n, 2), ValueView::Datetime(last_seen_at)),
            ],
        },
        OperationView::MergeAttributes { id, attributes } => StatementView {
            text: merge_attributes_text(name_at(n, 0), name_at(n, 1)),
            bindings: seq![(name_at(n, 0), resource_record(id)), (name_at(n, 1), attributes)],
        },
        OperationView::UpsertPrincipalChain { id, first_seen_at, last_seen_at } => StatementView {
            text: upsert_chain_text(name_at(n, 0), name_at(n, 1), name_at(n, 2)),
            bindings: seq![
                (name_at(n, 0), encode_chain(id)),
                (name_at(n, 1), ValueView::Datetime(first_seen_at)),
                (name_at(n, 2), ValueView::Datetime(last_seen_at)),
            ],
        },
        OperationView::UpsertEvent {
            principal,
            resource,
            ty,
            principal_chain,
            has_direct_principal_chain,
            first_seen_at,
            last_seen_at,
        } => StatementView {
            text: upsert_event_text(
                name_at(n, 0),
                name_at(n, 1),
                name_at(n, 2),
                name_at(n, 3),
                name_at(n, 4),
                name_at(n, 5),
                name_at(n, 6),
                has_direct_principal_chain,
            ),
            bindings: seq![
                (name_at(n, 0), resource_record(principal)),
                (name_at(n, 1), resource_record(resource)),
                (name_at(n, 2), ValueView::Strand(ty)),
                (name_at(n, 3), chain_record(principal_chain)),
                (name_at(n, 4), ValueView::Bool(has_direct_principal_chain)),
                (name_at(n, 5), ValueView::Datetime(first_seen_at)),
                (name_at(n, 6), ValueView::Datetime(last_seen_at)),
            ],
        },
    }
}

/// The number of parameters that the statement for an operation binds.
pub open spec fn parameter_count(op: OperationView) -> nat {
    match op {
        OperationView::UpsertResource { .. } => 3,
        OperationView::MergeAttributes { .. } => 2,
        OperationView::UpsertPrincipalChain { .. } => 3,
        OperationView::UpsertEvent { .. } => 7,
    }
}

/// Appends a dollar-free parameter reference: the name itself, after text
/// that ends in a dollar sign.
fn push_name(text: &mut String, name: &String)
    ensures
        final(text)@ == old(text)@ + name@,
{
    text.append(name.as_str());
}

/// The record identifier of a chain's record.
pub fn chain_record_value(id: &PrincipalChainId) -> (r: Value)
    ensures
        r@ == chain_record(id@),
{
    Value::Record(copy_str("principal_chain"), Box::new(id.to_value()))
}

/// Renders the statement that upserts a resource.
pub fn upsert_resource_statement(
    id: &ResourceId,
    first_seen_at: Timestamp,
    last_seen_at: Timestamp,
    counter: &mut u64,
) -> (r: Statement)
    ensures
        r@ == operation_statement(
            OperationView::UpsertResource { id: id@, first_seen_at, last_seen_at },
            *old(counter),
        ),
        *final(counter) == advance(*old(counter), 3),
{
    reveal_with_fuel(advance, 4);
    let id_name = next_binding(counter);
    let first_name = next_binding(counter);
    let last_name = next_binding(counter);
    let mut text = copy_str("INSERT INTO resource (id, first_seen_at, last_seen_at) VALUES ($");
    push_name(&mut text, &id_name);
    text.append(", $");
    push_name(&mut text, &first_name);
    text.append(", $");
    push_name(&mut text, &last_name);
    text.append(") ON DUPLICATE KEY UPDATE last_seen_at = time::max([last_seen_at, $");
    push_name(&mut text, &last_name);
    text.append("]) RETURN NONE;");
    let mut bindings: Vec<(String, Value)> = Vec::new();
    bindings.push((id_name, id.to_value()));
    bindings.push((first_name, Value::Datetime(first_seen_at)));
    bindings.push((last_name, Value::Datetime(last_seen_at)));
    let r = Statement { text, bindings };
    proof {
        let n = *old(counter);
        let expected = operation_statement(
            OperationView::UpsertResource { id: id@, first_seen_at, last_seen_at },
            n,
        );
        assert(r@.text =~= expected.text);
        assert(r@.bindings =~= expected.bindings);
    }
    r
}

/// Renders the statement that merges attributes into a resource.
pub fn merge_attributes_statement(id: &ResourceId, attributes: &Value, counter: &mut u64) -> (r:
    Statement)
    ensures
        r@ == operation_statement(
            OperationView::MergeAttributes { id: id@, attributes: attributes@ },
            *old(counter),
        ),
        *final(counter) == advance(*old(counter), 2),
{
    reveal_with_fuel(advance, 3);
    let id_name = next_binding(counter);
    let attributes_name = next_binding(counter);
    let mut text = copy_str("UPDATE $");
    push_name(&mut text, &id_name);
    text.append(" MERGE { attributes: $");
    push_name(&mut text, &attributes_name);
    text.append(" } RETURN NONE;");
    let mut bindings: Vec<(String, Value)> = Vec::new();
    bindings.push((id_name, id.to_record()));
    bindings.push((attributes_name, attributes.deep_clone()));
    let r = Statement { text, bindings };
    proof {
        let expected = operation_statement(
            OperationView::MergeAttributes { id: id@, attributes: attributes@ },
            *old(counter),
        );
        assert(r@.text =~= expected.text);
        assert(r@.bindings =~= expected.bindings);
    }
    r
}

/// Renders the statement that upserts a principal chain.
pub fn upsert_chain_statement(
    id: &PrincipalChainId,
    first_seen_at: Timestamp,
    last_seen_at: Timestamp,
    counter: &mut u64,
) -> (r: Statement)
    ensures
        r@ == operation_statement(
            OperationView::UpsertPrincipalChain { id: id@, first_seen_at, last_seen_at },
            *old(counter),
        ),
        *final(counter) == advance(*old(counter), 3),
{
    reveal_with_fuel(advance, 4);
    let id_name = next_binding(counter);
    let first_name = next_binding(counter);
    let last_name = next_binding(counter);
    let mut text = copy_str(
        "INSERT INTO principal_chain (id, first_seen_at, last_seen_at) VALUES ($",
    );
    push_name(&mut text, &id_name);
    text.append(", $");
    push_name(&mut text, &first_name);
    text.append(", $");
    push_name(&mut text, &last_name);
    text.append(") ON DUPLICATE KEY UPDATE last_seen_at = time::max([last_seen_at, $");
    push_name(&mut text, &last_name);
    text.append("]) RETURN NONE;");
    let mut bindings: Vec<(String, Value)> = Vec::new();
    bindings.push((id_name, id.to_value()));
    bindings.push((first_name, Value::Datetime(first_seen_at)));
    bindings.push((last_name, Value::Datetime(last_seen_at)));
    let r = Statement { text, bindings };
    proof {
        let expected = operation_statement(
            OperationView::UpsertPrincipalChain { id: id@, first_seen_at, last_seen_at },
            *old(counter),
        );
        assert(r@.text =~= expected.text);
        assert(r@.bindings =~= expected.bindings);
    }
    r
}

/// Renders the statement that upserts an event edge.
pub fn upsert_event_statement(
    principal: &ResourceId,
    resource: &ResourceId,
    ty: &String,
    principal_chain: &PrincipalChainId,
    direct: bool,
    first_seen_at: Timestamp,
    last_seen_at: Timestamp,
    counter: &mut u64,
) -> (r: Statement)
    ensures
        r@ == operation_statement(
            OperationView::UpsertEvent {
                principal: principal@,
                resource: resource@,
                ty: ty@,
                principal_chain: principal_chain@,
                has_direct_principal_chain: direct,
                first_seen_at,
                last_seen_at,
            },
            *old(counter),
        ),
        *final(counter) == advance(*old(counter), 7),
{
    reveal_with_fuel(advance, 8);
    let principal_name = next_binding(counter);
    let resource_name = next_binding(counter);
    let kind_name = next_binding(counter);
    let chain_name = next_binding(counter);
    let flag_name = next_binding(counter);
    let first_name = next_binding(counter);
    let last_name = next_binding(counter);
    let mut text = copy_str(
        "INSERT RELATION INTO event (in, out, type, principal_chains, has_direct_principal_chain, first_seen_at, last_seen_at) VALUES ($",
    );
    push_name(&mut text, &principal_name);
    text.append(", $");
    push_name(&mut text, &resource_name);
    text.append(", $");
    push_name(&mut text, &kind_name);
    text.append(", [$");
    push_name(&mut text, &chain_name);
    text.append("], $");
    push_name(&mut text, &flag_name);
    text.append(", $");
    push_name(&mut text, &first_name);
    text.append(", $");
    push_name(&mut text, &last_name);
    text.append(") ON DUPLICATE KEY UPDATE principal_chains += $");
    push_name(&mut text, &chain_name);
    text.append(", last_seen_at = time::max([last_seen_at, $");
    push_name(&mut text, &last_name);
    text.append("])");
    if direct {
        text.append(", has_direct_principal_chain = true");
    } else {
        text.append("");
    }
    text.append(" RETURN NONE;");
    let mut bindings: Vec<(String, Value)> = Vec::new();
    bindings.push((principal_name, principal.to_record()));
    bindings.push((resource_name, resource.to_record()));
    bindings.push((kind_name, Value::Strand(ty.clone())));
    bindings.push((chain_name, chain_record_value(principal_chain)));
    bindings.push((flag_name, Value::Bool(direct)));
    bindings.push((first_name, Value::Datetime(first_seen_at)));
    bindings.push((last_name, Value::Datetime(last_seen_at)));
    let r = Statement { text, bindings };
    proof {
        let expected = operation_statement(
            OperationView::UpsertEvent {
                principal: principal@,
                resource: resource@,
                ty: ty@,
                principal_chain: principal_chain@,
                has_direct_principal_chain: direct,
                first_seen_at,
                last_seen_at,
            },
            *old(counter),
        );
        assert(r@.text =~= expected.text);
        assert(r@.bindings =~= expected.bindings);
    }
    r
}

impl Operation {
    /// Renders the statement for the operation. Each value that the
    /// statement refers to is bound to a parameter with a fresh name.
    pub fn statement(&self, counter: &mut u64) -> (r: Statement)
        ensures
            r@ == operation_statement(self@, *old(counter)),
            *final(counter) == advance(*old(counter), parameter_count(self@)),
    {
        match self {
            Operation::UpsertResource { id, first_seen_at, last_seen_at } => {
                upsert_resource_statement(id, *first_seen_at, *last_seen_at, counter)
            },
            Operation::MergeAttributes { id, attributes } => merge_attributes_statement(
                id,
                attributes,
                counter,
            ),
            Operation::UpsertPrincipalChain { id, first_seen_at, last_seen_at } => {
                upsert_chain_statement(id, *first_seen_at, *last_seen_at, counter)
            },
            Operation::UpsertEvent {
                principal,
                resource,
                ty,
                principal_chain,
                has_direct_principal_chain,
                first_seen_at,
                last_seen_at,
            } => upsert_event_statement(
                principal,
                resource,
                ty,
                principal_chain,
                *has_direct_principal_chain,
                *first_seen_at,
                *last_seen_at,
                counter,
            ),
        }
    }
}

/// The number of parameters that the statements for the first `k`
/// operations of a batch bind.
pub open spec fn parameters_before(ops: Seq<OperationView>, k: nat) -> nat
    decreases k,
{
    if k == 0 {
        0
    } else {
        parameters_before(ops, (k - 1) as nat) + parameter_count(ops[k - 1])
    }
}

/// Handing out `a` names and then `b` more is handing out `a + b`.
pub proof fn lemma_advance_add(n: u64, a: nat, b: nat)
    ensures
        advance(advance(n, a), b) == advance(n, a + b),
    decreases b,
{
    if b > 0 {
        lemma_advance_add(n, a, (b - 1) as nat);
    }
}

/// The statement that begins a transaction.
pub open spec fn begin_statement() -> StatementView {
    StatementView { text: "BEGIN TRANSACTION;"@, bindings: Seq::empty() }
}

/// The statement that commits a transaction.
pub open spec fn commit_statement() -> StatementView {
    StatementView { text: "COMMIT TRANSACTION;"@, bindings: Seq::empty() }
}

/// The statements of the transaction that applies a batch as one unit: the
/// begin, the statement of each operation in order, each with parameter
/// names of its own, and the commit.
pub open spec fn transaction_statements(ops: Seq<OperationView>, n: u64) -> Seq<StatementView> {
    seq![begin_statement()] + Seq::new(
        ops.len(),
        |i: int| operation_statement(ops[i], advance(n, parameters_before(ops, i as nat))),
    ) + seq![commit_statement()]
}

/// The models of a list of statements.
pub open spec fn statements_view(statements: Seq<Statement>) -> Seq<StatementView> {
    Seq::new(statements.len(), |i: int| statements[i]@)
}

/// A statement without parameters.
pub fn plain_statement(text: &str) -> (r: Statement)
    ensures
        r@ == (StatementView { text: text@, bindings: Seq::empty() }),
{
    let r = Statement { text: copy_str(text), bindings: Vec::new() };
    assert(r@.bindings =~= Seq::empty());
    r
}

/// Renders the transaction that applies a batch of operations as one unit.
pub fn transaction(batch: &Vec<Operation>, counter: &mut u64) -> (r: Vec<Statement>)
    ensures
        statements_view(r@) == transaction_statements(
            crate::operation::operations_view(batch@),
            *old(counter),
        ),
        *final(counter) == advance(
            *old(counter),
            parameters_before(crate::operation::operations_view(batch@), batch@.len() as nat),
        ),
{
    let ghost n = *counter;
    let ghost ops = crate::operation::operations_view(batch@);
    let mut out: Vec<Statement> = Vec::new();
    out.push(plain_statement("BEGIN TRANSACTION;"));
    let mut i: usize = 0;
    while i < batch.len()
        invariant
            ops == crate::operation::operations_view(batch@),
            i <= batch@.len(),
            *counter == advance(n, parameters_before(ops, i as nat)),
            out@.len() == i + 1,
            out@[0]@ == begin_statement(),
            forall|j: int|
                0 <= j < i ==> (#[trigger] out@[j + 1])@ == operation_statement(
                    ops[j],
                    advance(n, parameters_before(ops, j as nat)),
                ),
        decreases batch@.len() - i,
    {
        proof {
            lemma_advance_add(n, parameters_before(ops, i as nat), parameter_count(ops[i as int]));
        }
        let statement = batch[i].statement(counter);
        out.push(statement);
        i += 1;
    }
    out.push(plain_statement("COMMIT TRANSACTION;"));
    proof {
        let expected = transaction_statements(ops, n);
        assert(statements_view(out@).len() == expected.len());
        assert forall|j: int| 0 <= j < expected.len() implies statements_view(out@)[j]
            == expected[j] by {
            if 1 <= j <= i {
                assert(out@[(j - 1) + 1]@ == operation_statement(
                    ops[j - 1],
                    advance(n, parameters_before(ops, (j - 1) as nat)),
                ));
            }
        }
        assert(statements_view(out@) =~= expected);
    }
    out
}

/// The text that sets the environments of a resource, if the store holds
/// the resource.
pub open spec fn set_environments_text() -> Seq<char> {
    "BEGIN; UPDATE resource SET environments = $envs WHERE id = $resource_id; COMMIT;"@
}

/// The values of a list of strings.
pub open spec fn strands(items: Seq<String>) -> Seq<ValueView> {
    Seq::new(items.len(), |i: int| ValueView::Strand(items[i]@))
}

/// Renders the statement that sets the environments of a resource.
pub fn set_environments(resource_id: &ResourceId, environments: &Vec<String>) -> (r: Statement)
    ensures
        r@.text == set_environments_text(),
        r@.bindings == seq![
            ("envs"@, ValueView::Array(strands(environments@))),
            ("resource_id"@, resource_record(resource_id@)),
        ],
{
    let mut values: Vec<Value> = Vec::new();
    let mut i: usize = 0;
    while i < environments.len()
        invariant
            i <= environments@.len(),
            values@.len() == i,
            forall|j: int| 0 <= j < i ==> values@[j]@ == ValueView::Strand(environments@[j]@),
        decreases environments@.len() - i,
    {
        values.push(Value::Strand(environments[i].clone()));
        i += 1;
    }
    proof {
        crate::value::lemma_array_view(values);
        assert(crate::value::values_view(values@) =~= strands(environments@));
    }
    let mut bindings: Vec<(String, Value)> = Vec::new();
    bindings.push((copy_str("envs"), Value::Array(values)));
    bindings.push((copy_str("resource_id"), resource_id.to_record()));
    let r = Statement {
        text: copy_str(
            "BEGIN; UPDATE resource SET environments = $envs WHERE id = $resource_id; COMMIT;",
        ),
        bindings,
    };
    assert(r@.bindings =~= seq![
        ("envs"@, ValueView::Array(strands(environments@))),
        ("resource_id"@, resource_record(resource_id@)),
    ]);
    r
}

/// Renders the statement that reads the time range of a principal chain.
pub fn get_principal_chain(id: &PrincipalChainId) -> (r: Statement)
    ensures
        r@.text
            == "SELECT first_seen_at, last_seen_at FROM type::thing('principal_chain', $id)"@,
        r@.bindings == seq![("id"@, encode_chain(id@))],
{
    let mut bindings: Vec<(String, Value)> = Vec::new();
    bindings.push((copy_str("id"), id.to_value()));
    let r = Statement {
        text: copy_str(
            "SELECT first_seen_at, last_seen_at FROM type::thing('principal_chain', $id)",
        ),
        bindings,
    };
    assert(r@.bindings =~= seq![("id"@, encode_chain(id@))]);
    r
}

} // verus!
