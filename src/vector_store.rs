use vstd::prelude::*;

use crate::blocks::{block_views, copy_coords, embedded_views, CodeBlock, CodeBlockView, EmbeddedBlock, EmbeddedView};
use crate::blocks::texts;
use crate::embeddings::{
    answers, vector_views, EmbeddingModel, Embeddings, NearestVectors, Vector, VectorView,
};
use crate::error::IndexError;
use crate::sqlite::{
    appended, blocks_result, code_vectors, create_outcome, delete_outcome, exists_outcome,
    insert_outcome, name_error, query_outcome, BlockQuery, ProjectInfo, SQLite, Tables,
};
use crate::names::{is_valid_project_name, validate_project_name};

verus! {

/// How many matches a search returns.
pub const SEARCH_MATCHES: usize = 5;

/// Each block paired with the vector at the same position.
pub open spec fn paired(bs: Seq<CodeBlockView>, vs: Seq<Seq<i32>>) -> Seq<EmbeddedView> {
    Seq::new(bs.len(), |i: int| EmbeddedView { block: bs[i], vectors: vs[i] })
}

/// The coordinates of each vector.
pub open spec fn points(vs: Seq<VectorView>) -> Seq<Seq<i32>> {
    vs.map_values(|v: VectorView| v.point)
}

/// Outcome of storing `blocks` with `vectors`, the vector at each position being the
/// embedding of the block at that position. Vectors that do not match the blocks in
/// number or dimension are the model's failure, and nothing is stored.
pub open spec fn ingest_outcome(
    m: Tables,
    name: Seq<char>,
    blocks: Seq<CodeBlockView>,
    vectors: Seq<VectorView>,
    dim: nat,
) -> (Result<(), IndexError>, Tables) {
    match name_error(m, name) {
        Some(e) => (Err(e), m),
        None => if vectors.len() != blocks.len() || exists|i: int|
            0 <= i < vectors.len() && (#[trigger] vectors[i]).point.len() != dim {
            (Err(IndexError::EmbeddingFailure), m)
        } else {
            (Ok(()), appended(m, name, paired(blocks, points(vectors))))
        },
    }
}

/// The tables after a successful ingest of `blocks` into `name`: each block is
/// appended with the vector that the model returned for the block's content, of
/// `dim` coordinates.
pub open spec fn ingested(m: Tables, name: Seq<char>, blocks: Seq<CodeBlockView>, dim: nat, after: Tables) -> bool {
    exists|vs: Seq<VectorView>|
        vs.len() == blocks.len() && (forall|i: int|
            0 <= i < vs.len() ==> (#[trigger] vs[i]).point.len() == dim && vs[i].code
                == blocks[i].content) && after == appended(m, name, paired(blocks, points(vs)))
}

/// The coordinator of the index: project lifecycle, ingest, similarity search and
/// exact queries over one backing store. Callers that share it across threads hold
/// it behind one lock, so storage operations run one at a time.
pub enum VectorStore {
    SQLiteStore(SQLite),
}

impl View for VectorStore {
    type V = Tables;

    open spec fn view(&self) -> Tables {
        match self {
            VectorStore::SQLiteStore(store) => store@,
        }
    }
}

impl VectorStore {
    pub open spec fn wf(&self) -> bool {
        match self {
            VectorStore::SQLiteStore(store) => store.wf(),
        }
    }

    /// The dimension of every stored vector.
    pub open spec fn dimension(&self) -> nat {
        match self {
            VectorStore::SQLiteStore(store) => store.dimension(),
        }
    }

    /// An empty in-memory store for embeddings of `dim` coordinates. No database is
    /// opened here: the caller loads saved projects into it and mirrors changes to disk.
    pub fn init_sqlite(dim: usize) -> (r: VectorStore)
        ensures
            r.wf(),
            r@ == Tables::empty(),
            r.dimension() == dim,
    {
        VectorStore::SQLiteStore(SQLite::new(dim))
    }

    /// The dimension of every stored vector.
    pub fn dim(&self) -> (r: usize)
        ensures
            r == self.dimension(),
    {
        match self {
            VectorStore::SQLiteStore(store) => store.dim(),
        }
    }

    /// Creates the project `project_name`; creating an existing project changes nothing.
    pub fn create_project(&mut self, project_name: &str) -> (r: Result<(), IndexError>)
        requires
            old(self).wf(),
        ensures
            final(self).wf(),
            final(self).dimension() == old(self).dimension(),
            (r, final(self)@) == create_outcome(old(self)@, project_name@),
    {
        match self {
            VectorStore::SQLiteStore(store) => store.create_table(project_name),
        }
    }

    /// Deletes the project `project_name` and all its blocks; deleting a missing
    /// project changes nothing.
    pub fn delete_project(&mut self, project_name: &str) -> (r: Result<(), IndexError>)
        requires
            old(self).wf(),
        ensures
            final(self).wf(),
            final(self).dimension() == old(self).dimension(),
            (r, final(self)@) == delete_outcome(old(self)@, project_name@),
    {
        match self {
            VectorStore::SQLiteStore(store) => store.delete_project(project_name),
        }
    }

    /// Whether the project `project_name` exists.
    pub fn does_project_exist(&self, project_name: &str) -> (r: Result<bool, IndexError>)
        requires
            self.wf(),
        ensures
            r == exists_outcome(self@, project_name@),
    {
        match self {
            VectorStore::SQLiteStore(store) => store.does_project_exist(project_name),
        }
    }

    /// The name and size of the project `project_name`, or `None` when it does not exist.
    pub fn get_project_info(&self, project_name: &str) -> (r: Result<Option<ProjectInfo>, IndexError>)
        requires
            self.wf(),
        ensures
            !is_valid_project_name(project_name@) ==> r == Err::<Option<ProjectInfo>, IndexError>(
                IndexError::InvalidProjectName,
            ),
            is_valid_project_name(project_name@) && !self@.contains_key(project_name@) ==> r
                == Ok::<Option<ProjectInfo>, IndexError>(None),
            is_valid_project_name(project_name@) && self@.contains_key(project_name@) ==> r is Ok
                && r->Ok_0 is Some && r->Ok_0->0.name@ == project_name@
                && r->Ok_0->0.total_code_blocks == self@[project_name@].len(),
    {
        match self {
            VectorStore::SQLiteStore(store) => store.get_project_info(project_name),
        }
    }

    /// Appends embedded blocks to the project `project_name`, all or none.
    pub fn insert_blocks(&mut self, project_name: &str, blocks: Vec<EmbeddedBlock>) -> (r: Result<
        (),
        IndexError,
    >)
        requires
            old(self).wf(),
        ensures
            final(self).wf(),
            final(self).dimension() == old(self).dimension(),
            (r, final(self)@) == insert_outcome(
                old(self)@,
                project_name@,
                embedded_views(blocks@),
                old(self).dimension(),
            ),
    {
        match self {
            VectorStore::SQLiteStore(store) => store.insert_blocks(project_name, blocks),
        }
    }

    /// Pairs each block with the vector at the same position.
    pub fn embed_blocks(blocks: &Vec<CodeBlock>, vectors: &Vec<Vector>) -> (r: Vec<EmbeddedBlock>)
        requires
            blocks@.len() == vectors@.len(),
        ensures
            r@.len() == blocks@.len(),
            forall|i: int|
                0 <= i < r@.len() ==> (#[trigger] r@[i])@ == (EmbeddedView {
                    block: blocks@[i]@,
                    vectors: vectors@[i].point@,
                }),
    {
        let mut r: Vec<EmbeddedBlock> = Vec::new();
        let mut i: usize = 0;
        while i < blocks.len()
            invariant
                0 <= i <= blocks@.len(),
                blocks@.len() == vectors@.len(),
                r@.len() == i,
                forall|j: int|
                    0 <= j < i ==> (#[trigger] r@[j])@ == (EmbeddedView {
                        block: blocks@[j]@,
                        vectors: vectors@[j].point@,
                    }),
            decreases blocks@.len() - i,
        {
            r.push(EmbeddedBlock { block: blocks[i].duplicate(), vectors: copy_coords(&vectors[i].point) });
            i = i + 1;
        }
        r
    }

    /// The content of each block, in block order: the batch handed to the model.
    pub fn block_contents(blocks: &Vec<CodeBlock>) -> (r: Vec<String>)
        ensures
            r@.len() == blocks@.len(),
            forall|i: int| 0 <= i < r@.len() ==> #[trigger] r@[i]@ == blocks@[i].content@,
    {
        let mut r: Vec<String> = Vec::new();
        let mut i: usize = 0;
        while i < blocks.len()
            invariant
                0 <= i <= blocks@.len(),
                r@.len() == i,
                forall|j: int| 0 <= j < i ==> #[trigger] r@[j]@ == blocks@[j].content@,
            decreases blocks@.len() - i,
        {
            r.push(blocks[i].content.clone());
            i = i + 1;
        }
        r
    }

    /// Stores each block with the vector at the same position, the model's embedding
    /// of the block's content, appending to the project `project_name`.
    pub fn ingest_vectors(&mut self, project_name: &str, blocks: &Vec<CodeBlock>, vectors: &Vec<Vector>) -> (r:
        Result<(), IndexError>)
        requires
            old(self).wf(),
        ensures
            final(self).wf(),
            final(self).dimension() == old(self).dimension(),
            (r, final(self)@) == ingest_outcome(
                old(self)@,
                project_name@,
                block_views(blocks@),
                vector_views(vectors@),
                old(self).dimension(),
            ),
    {
        if !validate_project_name(project_name) {
            return Err(IndexError::InvalidProjectName);
        }
        if !self.does_project_exist(project_name)? {
            return Err(IndexError::ProjectNotFound);
        }
        let ghost vv = vector_views(vectors@);
        if vectors.len() != blocks.len() {
            return Err(IndexError::EmbeddingFailure);
        }
        let dim = self.dim();
        let mut j: usize = 0;
        while j < vectors.len()
            invariant
                0 <= j <= vectors@.len(),
                vv == vector_views(vectors@),
                vectors@.len() == blocks@.len(),
                self.wf(),
                self@ == old(self)@,
                self.dimension() == old(self).dimension(),
                dim == self.dimension(),
                name_error(self@, project_name@) is None,
                forall|l: int| 0 <= l < j ==> (#[trigger] vv[l]).point.len() == dim,
            decreases vectors@.len() - j,
        {
            if vectors[j].point.len() != dim {
                assert(vv[j as int].point.len() != dim);
                return Err(IndexError::EmbeddingFailure);
            }
            j = j + 1;
        }
        let rows = Self::embed_blocks(blocks, vectors);
        proof {
            assert(embedded_views(rows@) =~= paired(block_views(blocks@), points(vv)));
            assert(!(exists|l: int| 0 <= l < rows@.len() && (#[trigger] embedded_views(rows@)[l]).vectors.len() != dim));
        }
        self.insert_blocks(project_name, rows)
    }

    /// Embeds the content of every block with one call of the model and appends the
    /// blocks with their vectors to the project `project_name`. The project must
    /// exist. When the model fails nothing is stored; a second ingest appends again.
    pub fn generate_embeddings<M: EmbeddingModel>(
        &mut self,
        model: &M,
        project_name: &str,
        blocks: Vec<CodeBlock>,
    ) -> (r: Result<(), IndexError>)
        requires
            old(self).wf(),
        ensures
            final(self).wf(),
            final(self).dimension() == old(self).dimension(),
            name_error(old(self)@, project_name@) is Some ==> r == Err::<(), IndexError>(
                name_error(old(self)@, project_name@)->0,
            ),
            r is Err ==> final(self)@ == old(self)@,
            name_error(old(self)@, project_name@) is None && r is Err ==> r == Err::<(), IndexError>(
                IndexError::EmbeddingFailure,
            ),
            r is Ok ==> name_error(old(self)@, project_name@) is None && ingested(
                old(self)@,
                project_name@,
                block_views(blocks@),
                old(self).dimension(),
                final(self)@,
            ),
    {
        if !validate_project_name(project_name) {
            return Err(IndexError::InvalidProjectName);
        }
        if !self.does_project_exist(project_name)? {
            return Err(IndexError::ProjectNotFound);
        }
        let contents = Self::block_contents(&blocks);
        let dim = self.dim();
        let vectors = Embeddings::generate_vector_set(model, contents, dim)?;
        let ghost before = self@;
        let ghost vv = vector_views(vectors@);
        proof {
            assert forall|i: int| 0 <= i < vv.len() implies (#[trigger] vv[i]).point.len() == dim
                && vv[i].code == block_views(blocks@)[i].content by {
                assert(vectors@[i].code@ == contents@[i]@);
            }
        }
        let r = self.ingest_vectors(project_name, &blocks, &vectors);
        assert(r is Ok);
        assert(ingested(before, project_name@, block_views(blocks@), self.dimension(), self@));
        r
    }

    /// Finds the `k` stored blocks most similar to `query_text` in the project
    /// `project_name`: embeds the text with one call of the model, builds a fresh index
    /// over the project's current vectors and answers from it.
    pub fn find_similar<M: EmbeddingModel>(
        &self,
        model: &M,
        project_name: &str,
        query_text: String,
        k: usize,
    ) -> (r: Result<NearestVectors, IndexError>)
        requires
            self.wf(),
        ensures
            name_error(self@, project_name@) is Some ==> r == Err::<NearestVectors, IndexError>(
                name_error(self@, project_name@)->0,
            ),
            name_error(self@, project_name@) is None && self@[project_name@].len() == 0 ==> r
                == Err::<NearestVectors, IndexError>(IndexError::EmptyIndex),
            name_error(self@, project_name@) is None && self@[project_name@].len() > 0 && r is Err
                ==> r == Err::<NearestVectors, IndexError>(IndexError::EmbeddingFailure),
            r is Ok ==> name_error(self@, project_name@) is None && exists|q: Seq<i32>|
                q.len() == self.dimension() && answers(
                    code_vectors(self@[project_name@]),
                    q,
                    k as int,
                    r->Ok_0.nearest@,
                    texts(r->Ok_0.k_nearest@),
                ),
    {
        match self {
            VectorStore::SQLiteStore(store) => {
                let vectors = store.get_code_vectors(project_name)?;
                assert(vectors@.len() == code_vectors(store@[project_name@]).len());
                Embeddings::search(model, vectors, query_text, k, store.dim())
            },
        }
    }

    /// `find_similar` with the number of matches that searches return.
    pub fn search<M: EmbeddingModel>(&self, model: &M, project_name: &str, search_code: String) -> (r:
        Result<NearestVectors, IndexError>)
        requires
            self.wf(),
        ensures
            name_error(self@, project_name@) is Some ==> r == Err::<NearestVectors, IndexError>(
                name_error(self@, project_name@)->0,
            ),
            name_error(self@, project_name@) is None && self@[project_name@].len() == 0 ==> r
                == Err::<NearestVectors, IndexError>(IndexError::EmptyIndex),
            name_error(self@, project_name@) is None && self@[project_name@].len() > 0 && r is Err
                ==> r == Err::<NearestVectors, IndexError>(IndexError::EmbeddingFailure),
            r is Ok ==> name_error(self@, project_name@) is None && exists|q: Seq<i32>|
                q.len() == self.dimension() && answers(
                    code_vectors(self@[project_name@]),
                    q,
                    SEARCH_MATCHES as int,
                    r->Ok_0.nearest@,
                    texts(r->Ok_0.k_nearest@),
                ),
    {
        self.find_similar(model, project_name, search_code, SEARCH_MATCHES)
    }

    /// Every block of the project that has a function name.
    pub fn get_all_function_blocks(&self, project_name: &str) -> (r: Result<Vec<CodeBlock>, IndexError>)
        requires
            self.wf(),
        ensures
            blocks_result(r) == query_outcome(self@, project_name@, BlockQuery::AllFunctions),
    {
        match self {
            VectorStore::SQLiteStore(store) => store.get_all_function_blocks(project_name),
        }
    }

    /// The blocks of the project that have a function name and whose content contains
    /// `search_code`.
    pub fn search_from_function_blocks(&self, project_name: &str, search_code: String) -> (r: Result<
        Vec<CodeBlock>,
        IndexError,
    >)
        requires
            self.wf(),
        ensures
            blocks_result(r) == query_outcome(
                self@,
                project_name@,
                BlockQuery::Containing(search_code@),
            ),
    {
        match self {
            VectorStore::SQLiteStore(store) => store.search_from_function_blocks(
                project_name,
                search_code.as_str(),
            ),
        }
    }

    /// The blocks of the project whose function name is `function_name`.
    pub fn search_by_function_name(&self, project_name: &str, function_name: String) -> (r: Result<
        Vec<CodeBlock>,
        IndexError,
    >)
        requires
            self.wf(),
        ensures
            blocks_result(r) == query_outcome(
                self@,
                project_name@,
                BlockQuery::Named(function_name@),
            ),
    {
        match self {
            VectorStore::SQLiteStore(store) => store.search_by_function_name(
                project_name,
                function_name.as_str(),
            ),
        }
    }

    /// Every row of the project, in storage order.
    pub fn get_project_rows(&self, project_name: &str) -> (r: Result<Vec<EmbeddedBlock>, IndexError>)
        requires
            self.wf(),
        ensures
            r is Err <==> name_error(self@, project_name@) is Some,
            r is Err ==> name_error(self@, project_name@) == Some(r->Err_0),
            r is Ok ==> embedded_views(r->Ok_0@) == self@[project_name@],
    {
        match self {
            VectorStore::SQLiteStore(store) => store.get_project_rows(project_name),
        }
    }
}

} // verus!
