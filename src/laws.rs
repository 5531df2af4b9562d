use vstd::prelude::*;

use crate::blocks::{CodeBlockView, EmbeddedView};
use crate::embeddings::VectorView;
use crate::error::IndexError;
use crate::names::is_valid_project_name;
use crate::sqlite::{
    appended, blocks_named, code_vectors, create_outcome, delete_outcome, exists_outcome,
    function_blocks, insert_outcome, name_error, query_outcome, select_blocks, BlockQuery, Tables,
};
use crate::vector_store::{ingested, paired, points};

verus! {

/// A name outside `[A-Za-z0-9_]+` is refused by every operation with
/// `InvalidProjectName`, and no operation changes the tables for it.
pub proof fn lemma_invalid_name_rejected(
    m: Tables,
    name: Seq<char>,
    rows: Seq<EmbeddedView>,
    dim: nat,
    q: BlockQuery,
)
    requires
        !is_valid_project_name(name),
    ensures
        create_outcome(m, name) == (Err::<(), IndexError>(IndexError::InvalidProjectName), m),
        delete_outcome(m, name) == (Err::<(), IndexError>(IndexError::InvalidProjectName), m),
        insert_outcome(m, name, rows, dim) == (Err::<(), IndexError>(IndexError::InvalidProjectName), m),
        exists_outcome(m, name) == Err::<bool, IndexError>(IndexError::InvalidProjectName),
        query_outcome(m, name, q) == Err::<Seq<CodeBlockView>, IndexError>(IndexError::InvalidProjectName),
        name_error(m, name) == Some(IndexError::InvalidProjectName),
{
}

/// Selecting from rows appended after others selects from each part in turn.
pub proof fn lemma_select_append(rows: Seq<EmbeddedView>, added: Seq<EmbeddedView>, q: BlockQuery)
    ensures
        select_blocks(rows + added, q) == select_blocks(rows, q) + select_blocks(added, q),
    decreases added.len(),
{
    if added.len() == 0 {
        assert(rows + added =~= rows);
        assert(select_blocks(rows, q) + select_blocks(added, q) =~= select_blocks(rows, q));
    } else {
        lemma_select_append(rows, added.drop_last(), q);
        assert((rows + added).drop_last() =~= rows + added.drop_last());
        assert((rows + added).last() == added.last());
        let prev = select_blocks(rows, q);
        let rest = select_blocks(added.drop_last(), q);
        if query_matches_last(added, q) {
            assert(prev + rest.push(added.last().block) =~= (prev + rest).push(added.last().block));
        }
    }
}

spec fn query_matches_last(rows: Seq<EmbeddedView>, q: BlockQuery) -> bool {
    crate::sqlite::query_matches(q, rows.last().block)
}

/// A block stored with a function name reads back equal in every field: as the last
/// function block of its project, and as the last block of its function name. Its
/// vector reads back, with its content, as the project's last vector.
pub proof fn lemma_round_trip(m: Tables, name: Seq<char>, row: EmbeddedView)
    requires
        m.contains_key(name),
        row.block.function_name is Some,
    ensures
        appended(m, name, seq![row])[name] == m[name].push(row),
        function_blocks(appended(m, name, seq![row])[name]) == function_blocks(m[name]).push(
            row.block,
        ),
        blocks_named(appended(m, name, seq![row])[name], row.block.function_name->0) == blocks_named(
            m[name],
            row.block.function_name->0,
        ).push(row.block),
        code_vectors(appended(m, name, seq![row])[name]) == code_vectors(m[name]).push(
            VectorView { point: row.vectors, code: row.block.content },
        ),
{
    let rows = m[name];
    assert(rows + seq![row] =~= rows.push(row));
    assert(rows.push(row).drop_last() =~= rows);
    assert(code_vectors(rows.push(row)) =~= code_vectors(rows).push(
        VectorView { point: row.vectors, code: row.block.content },
    ));
}

/// Creating a project twice leaves the tables as the first creation did.
pub proof fn lemma_create_idempotent(m: Tables, name: Seq<char>)
    ensures
        create_outcome(create_outcome(m, name).1, name) == create_outcome(m, name),
{
}

/// Deleting a project twice leaves the tables as the first deletion did, and the
/// project no longer exists.
pub proof fn lemma_delete_idempotent(m: Tables, name: Seq<char>)
    ensures
        delete_outcome(delete_outcome(m, name).1, name) == delete_outcome(m, name),
        is_valid_project_name(name) ==> exists_outcome(delete_outcome(m, name).1, name) == Ok::<
            bool,
            IndexError,
        >(false),
{
    assert(m.remove(name).remove(name) =~= m.remove(name));
}

/// A project that exists with no blocks answers every block query with an empty
/// sequence, not an error.
pub proof fn lemma_empty_project(m: Tables, name: Seq<char>, q: BlockQuery)
    requires
        is_valid_project_name(name),
        m.contains_key(name),
        m[name].len() == 0,
    ensures
        query_outcome(m, name, q) == Ok::<Seq<CodeBlockView>, IndexError>(Seq::empty()),
{
}

/// Two ingests into one project followed by a search: the project then holds the
/// rows it held before, then every block of the first ingest, then every block of
/// the second, and the search's index is built over the vectors of all of them.
pub proof fn lemma_ingests_accumulate(
    m0: Tables,
    m1: Tables,
    m2: Tables,
    name: Seq<char>,
    first: Seq<CodeBlockView>,
    second: Seq<CodeBlockView>,
    dim: nat,
)
    requires
        m0.contains_key(name),
        ingested(m0, name, first, dim, m1),
        ingested(m1, name, second, dim, m2),
    ensures
        m2.contains_key(name),
        m2[name].len() == m0[name].len() + first.len() + second.len(),
        forall|i: int| 0 <= i < m0[name].len() ==> #[trigger] m2[name][i] == m0[name][i],
        forall|i: int|
            0 <= i < first.len() ==> #[trigger] m2[name][m0[name].len() + i].block == first[i],
        forall|i: int|
            0 <= i < second.len() ==> #[trigger] m2[name][m0[name].len() + first.len() + i].block
                == second[i],
        code_vectors(m2[name]).len() == m2[name].len(),
        forall|i: int|
            0 <= i < m2[name].len() ==> (#[trigger] code_vectors(m2[name])[i]).code
                == m2[name][i].block.content,
{
    let va = choose|vs: Seq<VectorView>|
        vs.len() == first.len() && (forall|i: int|
            0 <= i < vs.len() ==> (#[trigger] vs[i]).point.len() == dim && vs[i].code
                == first[i].content) && m1 == appended(m0, name, paired(first, points(vs)));
    let vb = choose|vs: Seq<VectorView>|
        vs.len() == second.len() && (forall|i: int|
            0 <= i < vs.len() ==> (#[trigger] vs[i]).point.len() == dim && vs[i].code
                == second[i].content) && m2 == appended(m1, name, paired(second, points(vs)));
    assert(m1[name] == m0[name] + paired(first, points(va)));
    assert(m2[name] == m1[name] + paired(second, points(vb)));
    assert forall|i: int| 0 <= i < first.len() implies #[trigger] m2[name][m0[name].len() + i].block
        == first[i] by {
        assert(m2[name][m0[name].len() + i] == m1[name][m0[name].len() + i]);
    }
}

} // verus!
