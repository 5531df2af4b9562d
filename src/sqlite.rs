use vstd::prelude::*;

use crate::blocks::{
    block_views, copy_coords, embedded_views, CodeBlock, CodeBlockView, EmbeddedBlock,
    EmbeddedView,
};
use crate::embeddings::{all_of_dim, vector_views, Vector, VectorView};
use crate::error::IndexError;
use crate::names::{chars_of, is_valid_project_name, validate_project_name};

verus! {

/// The stored rows of every project, by project name.
pub type Tables = Map<Seq<char>, Seq<EmbeddedView>>;

/// `needle` occurs in `hay` starting at position `i`.
pub open spec fn occurs_at(hay: Seq<char>, needle: Seq<char>, i: int) -> bool {
    0 <= i && i + needle.len() <= hay.len() && hay.subrange(i, i + needle.len()) == needle
}

/// `needle` is a substring of `hay` (case-sensitive; the empty needle is in every text).
pub open spec fn contains_text(hay: Seq<char>, needle: Seq<char>) -> bool {
    exists|i: int| occurs_at(hay, needle, i)
}

/// The three shapes of block query.
pub enum BlockQuery {
    /// Every block that has a function name.
    AllFunctions,
    /// Blocks that have a function name and whose content contains the text.
    Containing(Seq<char>),
    /// Blocks whose function name is exactly the text.
    Named(Seq<char>),
}

pub open spec fn query_matches(q: BlockQuery, b: CodeBlockView) -> bool {
    match q {
        BlockQuery::AllFunctions => b.function_name is Some,
        BlockQuery::Containing(needle) => b.function_name is Some && contains_text(
            b.content,
            needle,
        ),
        BlockQuery::Named(f) => b.function_name == Some(f),
    }
}

/// The blocks of `rows` that `q` selects, in storage order.
pub open spec fn select_blocks(rows: Seq<EmbeddedView>, q: BlockQuery) -> Seq<CodeBlockView>
    decreases rows.len(),
{
    if rows.len() == 0 {
        Seq::empty()
    } else {
        let prev = select_blocks(rows.drop_last(), q);
        if query_matches(q, rows.last().block) {
            prev.push(rows.last().block)
        } else {
            prev
        }
    }
}

pub open spec fn function_blocks(rows: Seq<EmbeddedView>) -> Seq<CodeBlockView> {
    select_blocks(rows, BlockQuery::AllFunctions)
}

pub open spec fn blocks_containing(rows: Seq<EmbeddedView>, needle: Seq<char>) -> Seq<
    CodeBlockView,
> {
    select_blocks(rows, BlockQuery::Containing(needle))
}

pub open spec fn blocks_named(rows: Seq<EmbeddedView>, name: Seq<char>) -> Seq<CodeBlockView> {
    select_blocks(rows, BlockQuery::Named(name))
}

/// Every row's vector paired with the row's content.
pub open spec fn code_vectors(rows: Seq<EmbeddedView>) -> Seq<VectorView> {
    rows.map_values(|r: EmbeddedView| VectorView { point: r.vectors, code: r.block.content })
}

/// The tables after creating `name`: unchanged when it exists, else with a new empty table.
pub open spec fn created(m: Tables, name: Seq<char>) -> Tables {
    if m.contains_key(name) {
        m
    } else {
        m.insert(name, Seq::empty())
    }
}

/// The tables after appending `rows` to the table `name`.
pub open spec fn appended(m: Tables, name: Seq<char>, rows: Seq<EmbeddedView>) -> Tables {
    m.insert(name, m[name] + rows)
}

/// Every table is named validly and every stored vector has `dim` coordinates.
pub open spec fn valid_tables(m: Tables, dim: nat) -> bool {
    forall|n: Seq<char>|
        #[trigger] m.contains_key(n) ==> is_valid_project_name(n) && forall|k: int|
            0 <= k < m[n].len() ==> (#[trigger] m[n][k]).vectors.len() == dim
}

/// Outcome of `create_table`: the error, or success and the new tables.
pub open spec fn create_outcome(m: Tables, name: Seq<char>) -> (Result<(), IndexError>, Tables) {
    if !is_valid_project_name(name) {
        (Err(IndexError::InvalidProjectName), m)
    } else {
        (Ok(()), created(m, name))
    }
}

/// Outcome of `delete_project`.
pub open spec fn delete_outcome(m: Tables, name: Seq<char>) -> (Result<(), IndexError>, Tables) {
    if !is_valid_project_name(name) {
        (Err(IndexError::InvalidProjectName), m)
    } else {
        (Ok(()), m.remove(name))
    }
}

/// Outcome of `insert_blocks`: all rows are appended, or none is.
pub open spec fn insert_outcome(m: Tables, name: Seq<char>, rows: Seq<EmbeddedView>, dim: nat) -> (
    Result<(), IndexError>,
    Tables,
) {
    if !is_valid_project_name(name) {
        (Err(IndexError::InvalidProjectName), m)
    } else if !m.contains_key(name) {
        (Err(IndexError::ProjectNotFound), m)
    } else if exists|i: int| 0 <= i < rows.len() && (#[trigger] rows[i]).vectors.len() != dim {
        (Err(IndexError::StorageFailure), m)
    } else {
        (Ok(()), appended(m, name, rows))
    }
}

/// The error that an operation addressed to the table `name` meets first, if any.
pub open spec fn name_error(m: Tables, name: Seq<char>) -> Option<IndexError> {
    if !is_valid_project_name(name) {
        Some(IndexError::InvalidProjectName)
    } else if !m.contains_key(name) {
        Some(IndexError::ProjectNotFound)
    } else {
        None
    }
}

/// Outcome of `does_project_exist`.
pub open spec fn exists_outcome(m: Tables, name: Seq<char>) -> Result<bool, IndexError> {
    if !is_valid_project_name(name) {
        Err(IndexError::InvalidProjectName)
    } else {
        Ok(m.contains_key(name))
    }
}

/// Outcome of a block query on the table `name`.
pub open spec fn query_outcome(m: Tables, name: Seq<char>, q: BlockQuery) -> Result<
    Seq<CodeBlockView>,
    IndexError,
> {
    match name_error(m, name) {
        Some(e) => Err(e),
        None => Ok(select_blocks(m[name], q)),
    }
}

pub open spec fn blocks_result(r: Result<Vec<CodeBlock>, IndexError>) -> Result<
    Seq<CodeBlockView>,
    IndexError,
> {
    match r {
        Ok(v) => Ok(block_views(v@)),
        Err(e) => Err(e),
    }
}

/// Size of a project.
#[derive(Clone, Debug, PartialEq, Eq)]
pub struct ProjectInfo {
    pub name: String,
    pub total_code_blocks: usize,
}

/// One project's table: its rows in insertion order.
struct ProjectTable {
    name: String,
    rows: Vec<EmbeddedBlock>,
}

/// Project-namespaced block storage, held in memory: one table per project, one row
/// per block with its vector, in insertion order. Every vector has the dimension the
/// store was created with. The program around the library mirrors each table to a
/// SQLite file, one SQL table per project, and loads them back at start.
pub struct SQLite {
    tables: Vec<ProjectTable>,
    dim: usize,
    contents: Ghost<Tables>,
}

/// A copy of a stored row.
pub fn copy_row(b: &EmbeddedBlock) -> (r: EmbeddedBlock)
    ensures
        r@ == b@,
{
    EmbeddedBlock { block: b.block.duplicate(), vectors: copy_coords(&b.vectors) }
}

/// Whether `needle` occurs in `hay`.
pub fn contains_chars(hay: &Vec<char>, needle: &Vec<char>) -> (r: bool)
    ensures
        r == contains_text(hay@, needle@),
{
    if needle.len() > hay.len() {
        return false;
    }
    let n = needle.len();
    let h = hay.len();
    if n == 0 {
        assert(hay@.subrange(0, 0) =~= needle@);
        assert(occurs_at(hay@, needle@, 0));
        return true;
    }
    let mut i: usize = 0;
    while i <= h - n
        invariant
            h == hay@.len(),
            n == needle@.len(),
            0 < n <= hay@.len(),
            0 <= i <= hay@.len() - n + 1,
            forall|k: int| 0 <= k < i ==> !occurs_at(hay@, needle@, k),
        decreases hay@.len() - n + 1 - i,
    {
        let mut j: usize = 0;
        let mut same = true;
        while j < n
            invariant
                h == hay@.len(),
                n == needle@.len(),
                i + n <= h,
                0 <= j <= n,
                same ==> forall|l: int| 0 <= l < j ==> hay@[i + l] == needle@[l],
                !same ==> !occurs_at(hay@, needle@, i as int),
            decreases n - j,
        {
            if hay[i + j] != needle[j] {
                assert(hay@.subrange(i as int, i + n)[j as int] == hay@[i + j]);
                same = false;
            }
            j = j + 1;
        }
        if same {
            assert(hay@.subrange(i as int, i + n) =~= needle@);
            assert(occurs_at(hay@, needle@, i as int));
            return true;
        }
        i = i + 1;
    }
    proof {
        assert forall|k: int| !occurs_at(hay@, needle@, k) by {
            if 0 <= k && k + n <= hay@.len() {
                assert(k < i);
            }
        }
    }
    false
}

/// The executable form of a block query.
enum Filter {
    AllFunctions,
    Containing(Vec<char>),
    Named(String),
}

impl Filter {
    spec fn spec_query(&self) -> BlockQuery {
        match self {
            Filter::AllFunctions => BlockQuery::AllFunctions,
            Filter::Containing(needle) => BlockQuery::Containing(needle@),
            Filter::Named(f) => BlockQuery::Named(f@),
        }
    }

    fn matches(&self, b: &CodeBlock) -> (r: bool)
        ensures
            r == query_matches(self.spec_query(), b@),
    {
        let ghost v = b@;
        match self {
            Filter::AllFunctions => match &b.function_name {
                Some(_) => true,
                None => false,
            },
            Filter::Containing(needle) => match &b.function_name {
                Some(_) => {
                    let content = chars_of(b.content.as_str());
                    assert(content@ == v.content);
                    contains_chars(&content, needle)
                },
                None => false,
            },
            Filter::Named(f) => match &b.function_name {
                Some(g) => {
                    assert(v.function_name == Some(g@));
                    g.eq(f)
                },
                None => false,
            },
        }
    }
}

impl View for SQLite {
    type V = Tables;

    closed spec fn view(&self) -> Tables {
        self.contents@
    }
}

impl SQLite {
    /// The dimension of every stored vector.
    pub closed spec fn dimension(&self) -> nat {
        self.dim as nat
    }

    /// The internal tables agree with the view, names are distinct, and the view
    /// holds only valid names and vectors of the store's dimension.
    pub closed spec fn wf(&self) -> bool {
        &&& valid_tables(self.contents@, self.dim as nat)
        &&& forall|i: int|
            0 <= i < self.tables@.len() ==> #[trigger] self.contents@.contains_key(
                self.tables@[i].name@,
            ) && self.contents@[self.tables@[i].name@] == embedded_views(self.tables@[i].rows@)
        &&& forall|i: int, j: int|
            0 <= i < j < self.tables@.len() ==> (#[trigger] self.tables@[i]).name@
                != (#[trigger] self.tables@[j]).name@
        &&& forall|n: Seq<char>|
            #[trigger] self.contents@.contains_key(n) ==> exists|i: int|
                0 <= i < self.tables@.len() && (#[trigger] self.tables@[i]).name@ == n
    }

    /// An empty store for vectors of `dim` coordinates.
    pub fn new(dim: usize) -> (r: SQLite)
        ensures
            r.wf(),
            r@ == Tables::empty(),
            r.dimension() == dim,
    {
        SQLite { tables: Vec::new(), dim, contents: Ghost(Map::empty()) }
    }

    /// The dimension of every stored vector.
    pub fn dim(&self) -> (r: usize)
        ensures
            r == self.dimension(),
    {
        self.dim
    }

    /// Position of the table `name`, if there is one.
    fn find(&self, name: &str) -> (r: Option<usize>)
        requires
            self.wf(),
        ensures
            r is Some <==> self@.contains_key(name@),
            r is Some ==> r->0 < self.tables@.len() && self.tables@[r->0 as int].name@ == name@,
    {
        let key = name.to_owned();
        let mut i: usize = 0;
        while i < self.tables.len()
            invariant
                self.wf(),
                key@ == name@,
                0 <= i <= self.tables@.len(),
                forall|j: int| 0 <= j < i ==> (#[trigger] self.tables@[j]).name@ != name@,
            decreases self.tables@.len() - i,
        {
            if self.tables[i].name == key {
                return Some(i);
            }
            i = i + 1;
        }
        None
    }

    /// Validates `name`, then finds its table.
    fn lookup(&self, name: &str) -> (r: Result<usize, IndexError>)
        requires
            self.wf(),
        ensures
            !is_valid_project_name(name@) ==> r == Err::<usize, IndexError>(
                IndexError::InvalidProjectName,
            ),
            is_valid_project_name(name@) && !self@.contains_key(name@) ==> r == Err::<
                usize,
                IndexError,
            >(IndexError::ProjectNotFound),
            is_valid_project_name(name@) && self@.contains_key(name@) ==> r is Ok,
            r is Ok ==> r->Ok_0 < self.tables@.len() && self.tables@[r->Ok_0 as int].name@
                == name@,
    {
        if !validate_project_name(name) {
            return Err(IndexError::InvalidProjectName);
        }
        match self.find(name) {
            Some(i) => Ok(i),
            None => Err(IndexError::ProjectNotFound),
        }
    }

    /// Whether the project `project_name` exists.
    pub fn does_project_exist(&self, project_name: &str) -> (r: Result<bool, IndexError>)
        requires
            self.wf(),
        ensures
            r == exists_outcome(self@, project_name@),
    {
        if !validate_project_name(project_name) {
            return Err(IndexError::InvalidProjectName);
        }
        Ok(self.find(project_name).is_some())
    }

    /// Creates the table `project_name`. Creating a table that exists changes nothing.
    pub fn create_table(&mut self, project_name: &str) -> (r: Result<(), IndexError>)
        requires
            old(self).wf(),
        ensures
            final(self).wf(),
            final(self).dimension() == old(self).dimension(),
            (r, final(self)@) == create_outcome(old(self)@, project_name@),
    {
        if !validate_project_name(project_name) {
            return Err(IndexError::InvalidProjectName);
        }
        match self.find(project_name) {
            Some(_) => Ok(()),
            None => {
                let ghost old_tables = self.tables@;
                let ghost name = project_name@;
                self.tables.push(ProjectTable { name: project_name.to_owned(), rows: Vec::new() });
                self.contents = Ghost(self.contents@.insert(name, Seq::empty()));
                proof {
                    let last = old_tables.len() as int;
                    assert(self.tables@[last].name@ == name);
                    assert(embedded_views(self.tables@[last].rows@) =~= Seq::empty());
                    assert forall|i: int| 0 <= i < old_tables.len() implies (#[trigger] old_tables[i]).name@ != name by {
                        assert(old(self).contents@.contains_key(old_tables[i].name@));
                    }
                    assert forall|i: int, j: int|
                        0 <= i < j < self.tables@.len() implies (#[trigger] self.tables@[i]).name@
                        != (#[trigger] self.tables@[j]).name@ by {
                        if j == last {
                            assert(old_tables[i].name@ != name);
                        } else {
                            assert(old_tables[i] == self.tables@[i]);
                        }
                    }
                    assert forall|n: Seq<char>| #[trigger] self.contents@.contains_key(n) implies exists|i: int|
                        0 <= i < self.tables@.len() && (#[trigger] self.tables@[i]).name@ == n by {
                        if n != name {
                            let i = choose|i: int| 0 <= i < old_tables.len() && (#[trigger] old_tables[i]).name@ == n;
                            assert(self.tables@[i] == old_tables[i]);
                        }
                    }
                    assert forall|i: int| 0 <= i < self.tables@.len() implies #[trigger] self.contents@.contains_key(
                        self.tables@[i].name@,
                    ) && self.contents@[self.tables@[i].name@] == embedded_views(self.tables@[i].rows@) by {
                        if i < last {
                            assert(self.tables@[i] == old_tables[i]);
                            assert(old_tables[i].name@ != name);
                        }
                    }
                }
                Ok(())
            },
        }
    }

    /// Drops the table `project_name` with all its rows. Dropping a table that does not
    /// exist changes nothing.
    pub fn delete_project(&mut self, project_name: &str) -> (r: Result<(), IndexError>)
        requires
            old(self).wf(),
        ensures
            final(self).wf(),
            final(self).dimension() == old(self).dimension(),
            (r, final(self)@) == delete_outcome(old(self)@, project_name@),
    {
        if !validate_project_name(project_name) {
            return Err(IndexError::InvalidProjectName);
        }
        match self.find(project_name) {
            None => {
                assert(self.contents@.remove(project_name@) =~= self.contents@);
                Ok(())
            },
            Some(k) => {
                let ghost old_tables = self.tables@;
                let ghost name = project_name@;
                let _gone = self.tables.remove(k);
                self.contents = Ghost(self.contents@.remove(name));
                proof {
                    assert forall|n: Seq<char>| #[trigger] self.contents@.contains_key(n) implies old(
                        self,
                    ).contents@.contains_key(n) && self.contents@[n] == old(self).contents@[n] by {}
                    assert(valid_tables(self.contents@, self.dim as nat));
                    assert forall|i: int| 0 <= i < self.tables@.len() implies (#[trigger] self.tables@[i])
                        == old_tables[if i < k { i } else { i + 1 }] by {}
                    assert forall|i: int, j: int|
                        0 <= i < j < self.tables@.len() implies (#[trigger] self.tables@[i]).name@
                        != (#[trigger] self.tables@[j]).name@ by {
                        let oi = if i < k { i } else { i + 1 };
                        let oj = if j < k { j } else { j + 1 };
                        assert(old_tables[oi].name@ != old_tables[oj].name@);
                    }
                    assert forall|i: int| 0 <= i < self.tables@.len() implies #[trigger] self.contents@.contains_key(
                        self.tables@[i].name@,
                    ) && self.contents@[self.tables@[i].name@] == embedded_views(self.tables@[i].rows@) by {
                        let oi = if i < k { i } else { i + 1 };
                        assert(old_tables[oi].name@ != old_tables[k as int].name@);
                        assert(old(self).contents@.contains_key(old_tables[oi].name@));
                    }
                    assert forall|n: Seq<char>| #[trigger] self.contents@.contains_key(n) implies exists|i: int|
                        0 <= i < self.tables@.len() && (#[trigger] self.tables@[i]).name@ == n by {
                        let oi = choose|oi: int| 0 <= oi < old_tables.len() && (#[trigger] old_tables[oi]).name@ == n;
                        assert(oi != k);
                        let i = if oi < k { oi } else { oi - 1 };
                        assert(self.tables@[i] == old_tables[oi]);
                    }
                }
                Ok(())
            },
        }
    }

    /// Appends `blocks` to the table `project_name`, all of them or, when one cannot be
    /// stored, none.
    pub fn insert_blocks(&mut self, project_name: &str, blocks: Vec<EmbeddedBlock>) -> (r: Result<
        (),
        IndexError,
    >)
        requires
            old(self).wf(),
        ensures
            final(self).wf(),
            final(self).dimension() == old(self).dimension(),
            (r, final(self)@) == insert_outcome(
                old(self)@,
                project_name@,
                embedded_views(blocks@),
                old(self).dimension(),
            ),
    {
        let k = self.lookup(project_name)?;
        let ghost added = embedded_views(blocks@);
        let mut j: usize = 0;
        while j < blocks.len()
            invariant
                0 <= j <= blocks@.len(),
                added == embedded_views(blocks@),
                self.wf(),
                self@ == old(self)@,
                self.dim == old(self).dimension(),
                is_valid_project_name(project_name@),
                self@.contains_key(project_name@),
                forall|l: int| 0 <= l < j ==> (#[trigger] added[l]).vectors.len() == self.dim,
            decreases blocks@.len() - j,
        {
            if blocks[j].vectors.len() != self.dim {
                assert(added[j as int].vectors.len() != self.dim);
                return Err(IndexError::StorageFailure);
            }
            j = j + 1;
        }
        let ghost old_tables = self.tables@;
        let ghost name = project_name@;
        let ghost old_rows = self.tables@[k as int].rows@;
        let mut blocks = blocks;
        let mut table = self.tables.remove(k);
        table.rows.append(&mut blocks);
        self.tables.insert(k, table);
        self.contents = Ghost(self.contents@.insert(name, self.contents@[name] + added));
        proof {
            assert(embedded_views(self.tables@[k as int].rows@) =~= embedded_views(old_rows) + added);
            assert forall|i: int| 0 <= i < self.tables@.len() && i != k implies #[trigger] self.tables@[i]
                == old_tables[i] by {}
            assert forall|i: int, l: int|
                0 <= i < l < self.tables@.len() implies (#[trigger] self.tables@[i]).name@
                != (#[trigger] self.tables@[l]).name@ by {
                assert(old_tables[i].name@ != old_tables[l].name@);
            }
            assert forall|i: int| 0 <= i < self.tables@.len() implies #[trigger] self.contents@.contains_key(
                self.tables@[i].name@,
            ) && self.contents@[self.tables@[i].name@] == embedded_views(self.tables@[i].rows@) by {
                if i != k {
                    assert(old_tables[i].name@ != old_tables[k as int].name@);
                }
            }
            assert forall|n: Seq<char>| #[trigger] self.contents@.contains_key(n) implies exists|i: int|
                0 <= i < self.tables@.len() && (#[trigger] self.tables@[i]).name@ == n by {
                let i = choose|i: int| 0 <= i < old_tables.len() && (#[trigger] old_tables[i]).name@ == n;
                assert(self.tables@[i].name@ == n);
            }
            assert forall|n: Seq<char>| #[trigger] self.contents@.contains_key(n) implies forall|l: int|
                0 <= l < self.contents@[n].len() ==> (#[trigger] self.contents@[n][l]).vectors.len() == self.dim by {
                if n == name {
                    assert forall|l: int| 0 <= l < self.contents@[n].len() implies (#[trigger] self.contents@[n][l]).vectors.len() == self.dim by {
                        if l >= old(self).contents@[n].len() {
                            assert(self.contents@[n][l] == added[l - old(self).contents@[n].len()]);
                        }
                    }
                }
            }
        }
        Ok(())
    }

    /// How many rows the table `project_name` holds, or `None` when it does not exist.
    pub fn get_project_info(&self, project_name: &str) -> (r: Result<Option<ProjectInfo>, IndexError>)
        requires
            self.wf(),
        ensures
            !is_valid_project_name(project_name@) ==> r == Err::<Option<ProjectInfo>, IndexError>(
                IndexError::InvalidProjectName,
            ),
            is_valid_project_name(project_name@) && !self@.contains_key(project_name@) ==> r
                == Ok::<Option<ProjectInfo>, IndexError>(None),
            is_valid_project_name(project_name@) && self@.contains_key(project_name@) ==> r is Ok
                && r->Ok_0 is Some && r->Ok_0->0.name@ == project_name@
                && r->Ok_0->0.total_code_blocks == self@[project_name@].len(),
    {
        match self.lookup(project_name) {
            Err(IndexError::InvalidProjectName) => Err(IndexError::InvalidProjectName),
            Err(_) => Ok(None),
            Ok(k) => {
                assert(embedded_views(self.tables@[k as int].rows@).len() == self.tables@[k as int].rows@.len());
                Ok(
                    Some(
                        ProjectInfo {
                            name: project_name.to_owned(),
                            total_code_blocks: self.tables[k].rows.len(),
                        },
                    ),
                )
            },
        }
    }

    /// The blocks of the table `project_name` that `filter` selects, in storage order.
    fn select(&self, project_name: &str, filter: &Filter) -> (r: Result<Vec<CodeBlock>, IndexError>)
        requires
            self.wf(),
        ensures
            blocks_result(r) == query_outcome(self@, project_name@, filter.spec_query()),
    {
        let k = self.lookup(project_name)?;
        let rows = &self.tables[k].rows;
        let ghost q = filter.spec_query();
        let ghost all = embedded_views(rows@);
        let mut out: Vec<CodeBlock> = Vec::new();
        let mut i: usize = 0;
        while i < rows.len()
            invariant
                0 <= i <= rows@.len(),
                all == embedded_views(rows@),
                q == filter.spec_query(),
                block_views(out@) == select_blocks(all.take(i as int), q),
            decreases rows@.len() - i,
        {
            let ghost before = out@;
            assert(all.take(i + 1).drop_last() =~= all.take(i as int));
            assert(all.take(i + 1).last() == rows@[i as int]@);
            if filter.matches(&rows[i].block) {
                out.push(rows[i].block.duplicate());
                assert(block_views(out@) =~= block_views(before).push(rows@[i as int].block@));
            }
            i = i + 1;
        }
        assert(all.take(rows@.len() as int) =~= all);
        Ok(out)
    }

    /// Every block of the table `project_name` that has a function name.
    pub fn get_all_function_blocks(&self, project_name: &str) -> (r: Result<Vec<CodeBlock>, IndexError>)
        requires
            self.wf(),
        ensures
            blocks_result(r) == query_outcome(self@, project_name@, BlockQuery::AllFunctions),
    {
        self.select(project_name, &Filter::AllFunctions)
    }

    /// The blocks of the table `project_name` that have a function name and whose
    /// content contains `search_code`, case-sensitively.
    pub fn search_from_function_blocks(&self, project_name: &str, search_code: &str) -> (r: Result<
        Vec<CodeBlock>,
        IndexError,
    >)
        requires
            self.wf(),
        ensures
            blocks_result(r) == query_outcome(
                self@,
                project_name@,
                BlockQuery::Containing(search_code@),
            ),
    {
        self.select(project_name, &Filter::Containing(chars_of(search_code)))
    }

    /// The blocks of the table `project_name` whose function name is `function_name`.
    pub fn search_by_function_name(&self, project_name: &str, function_name: &str) -> (r: Result<
        Vec<CodeBlock>,
        IndexError,
    >)
        requires
            self.wf(),
        ensures
            blocks_result(r) == query_outcome(
                self@,
                project_name@,
                BlockQuery::Named(function_name@),
            ),
    {
        self.select(project_name, &Filter::Named(function_name.to_owned()))
    }

    /// Every row's vector of the table `project_name`, paired with the row's content.
    pub fn get_code_vectors(&self, project_name: &str) -> (r: Result<Vec<Vector>, IndexError>)
        requires
            self.wf(),
        ensures
            r is Err <==> name_error(self@, project_name@) is Some,
            r is Err ==> name_error(self@, project_name@) == Some(r->Err_0),
            r is Ok ==> vector_views(r->Ok_0@) == code_vectors(self@[project_name@]) && all_of_dim(
                r->Ok_0@,
                self.dimension(),
            ),
    {
        let k = self.lookup(project_name)?;
        let rows = &self.tables[k].rows;
        let ghost all = self@[project_name@];
        assert(all == embedded_views(rows@));
        let mut out: Vec<Vector> = Vec::new();
        let mut i: usize = 0;
        while i < rows.len()
            invariant
                0 <= i <= rows@.len(),
                all == embedded_views(rows@),
                valid_tables(self@, self.dimension()),
                self@.contains_key(project_name@),
                all == self@[project_name@],
                out@.len() == i,
                forall|j: int|
                    0 <= j < i ==> (#[trigger] out@[j])@ == code_vectors(all)[j],
            decreases rows@.len() - i,
        {
            out.push(Vector { point: copy_coords(&rows[i].vectors), code: rows[i].block.content.clone() });
            i = i + 1;
        }
        assert(vector_views(out@) =~= code_vectors(all));
        assert forall|j: int| 0 <= j < out@.len() implies (#[trigger] out@[j]).point@.len() == self.dimension() by {
            assert(out@[j].point@ == all[j].vectors);
        }
        Ok(out)
    }

    /// Every row of the table `project_name`, in storage order.
    pub fn get_project_rows(&self, project_name: &str) -> (r: Result<Vec<EmbeddedBlock>, IndexError>)
        requires
            self.wf(),
        ensures
            r is Err <==> name_error(self@, project_name@) is Some,
            r is Err ==> name_error(self@, project_name@) == Some(r->Err_0),
            r is Ok ==> embedded_views(r->Ok_0@) == self@[project_name@],
    {
        let k = self.lookup(project_name)?;
        let rows = &self.tables[k].rows;
        let mut out: Vec<EmbeddedBlock> = Vec::new();
        let mut i: usize = 0;
        while i < rows.len()
            invariant
                0 <= i <= rows@.len(),
                out@.len() == i,
                forall|j: int| 0 <= j < i ==> (#[trigger] out@[j])@ == rows@[j]@,
            decreases rows@.len() - i,
        {
            out.push(copy_row(&rows[i]));
            i = i + 1;
        }
        assert(embedded_views(out@) =~= embedded_views(rows@));
        Ok(out)
    }
}

} // verus!
