use vstd::prelude::*;

verus! {

/// Whether a block is a function or some other unit of code.
#[derive(Clone, Copy, Debug, PartialEq, Eq, Structural)]
pub enum BlockType {
    Function,
    NonFunction,
}

/// A unit of source code produced by the indexer.
#[derive(Clone, Debug, PartialEq, Eq)]
pub struct CodeBlock {
    /// Stable identifier of the block.
    pub node_key: String,
    pub block_type: BlockType,
    /// The source text of the block.
    pub content: String,
    /// The function's name, for a function block.
    pub function_name: Option<String>,
    /// The enclosing class, if there is one.
    pub class_name: Option<String>,
    /// Identifiers of the blocks that this block calls, in order.
    pub outgoing_calls: Vec<String>,
}

/// The mathematical value of a `CodeBlock`.
pub struct CodeBlockView {
    pub node_key: Seq<char>,
    pub block_type: BlockType,
    pub content: Seq<char>,
    pub function_name: Option<Seq<char>>,
    pub class_name: Option<Seq<char>>,
    pub outgoing_calls: Seq<Seq<char>>,
}

pub open spec fn opt_text(o: Option<String>) -> Option<Seq<char>> {
    match o {
        Some(s) => Some(s@),
        None => None,
    }
}

pub open spec fn texts(v: Seq<String>) -> Seq<Seq<char>> {
    v.map_values(|s: String| s@)
}

impl View for CodeBlock {
    type V = CodeBlockView;

    open spec fn view(&self) -> CodeBlockView {
        CodeBlockView {
            node_key: self.node_key@,
            block_type: self.block_type,
            content: self.content@,
            function_name: opt_text(self.function_name),
            class_name: opt_text(self.class_name),
            outgoing_calls: texts(self.outgoing_calls@),
        }
    }
}

pub open spec fn block_views(v: Seq<CodeBlock>) -> Seq<CodeBlockView> {
    v.map_values(|b: CodeBlock| b@)
}

/// A block together with its embedding: one stored row of a project.
#[derive(Clone, Debug, PartialEq, Eq)]
pub struct EmbeddedBlock {
    pub block: CodeBlock,
    /// The embedding's coordinates, in the fixed-point scale of the model.
    pub vectors: Vec<i32>,
}

pub struct EmbeddedView {
    pub block: CodeBlockView,
    pub vectors: Seq<i32>,
}

impl View for EmbeddedBlock {
    type V = EmbeddedView;

    open spec fn view(&self) -> EmbeddedView {
        EmbeddedView { block: self.block@, vectors: self.vectors@ }
    }
}

pub open spec fn embedded_views(v: Seq<EmbeddedBlock>) -> Seq<EmbeddedView> {
    v.map_values(|b: EmbeddedBlock| b@)
}

/// A group of related code blocks, as listed for a source file.
#[derive(Clone, Debug, PartialEq, Eq)]
pub struct BlockSet {
    /// The source file the blocks come from.
    pub source_file: String,
    /// The function the blocks belong to, if any.
    pub function_name: Option<String>,
    /// The code of the blocks.
    pub code: String,
    /// The incoming calls, as text.
    pub incoming_calls: String,
    /// The outgoing calls, as text.
    pub outgoing_calls: String,
}

/// A copy of an optional string.
pub fn copy_opt_text(o: &Option<String>) -> (r: Option<String>)
    ensures
        opt_text(r) == opt_text(*o),
{
    match o {
        Some(s) => Some(s.clone()),
        None => None,
    }
}

/// A copy of a list of strings.
pub fn copy_texts(v: &Vec<String>) -> (r: Vec<String>)
    ensures
        texts(r@) == texts(v@),
{
    let mut r: Vec<String> = Vec::new();
    let mut i: usize = 0;
    while i < v.len()
        invariant
            0 <= i <= v@.len(),
            r@.len() == i,
            forall|j: int| 0 <= j < i ==> #[trigger] r@[j]@ == v@[j]@,
        decreases v@.len() - i,
    {
        r.push(v[i].clone());
        i = i + 1;
    }
    assert(texts(r@) =~= texts(v@));
    r
}

/// A copy of a list of coordinates.
pub fn copy_coords(v: &Vec<i32>) -> (r: Vec<i32>)
    ensures
        r@ == v@,
{
    let mut r: Vec<i32> = Vec::new();
    let mut i: usize = 0;
    while i < v.len()
        invariant
            0 <= i <= v@.len(),
            r@ == v@.subrange(0, i as int),
        decreases v@.len() - i,
    {
        r.push(v[i]);
        i = i + 1;
        assert(r@ =~= v@.subrange(0, i as int));
    }
    assert(r@ =~= v@);
    r
}

impl CodeBlock {
    /// A copy of this block, equal to it in every field.
    pub fn duplicate(&self) -> (r: CodeBlock)
        ensures
            r@ == self@,
    {
        CodeBlock {
            node_key: self.node_key.clone(),
            block_type: self.block_type,
            content: self.content.clone(),
            function_name: copy_opt_text(&self.function_name),
            class_name: copy_opt_text(&self.class_name),
            outgoing_calls: copy_texts(&self.outgoing_calls),
        }
    }
}

} // verus!
