//! Records: the blocks a record is made of, the builder that assembles them
//! by position, and the finished record with its accessors.

use crate::error::ErrorKind;
use crate::json::{Json, JsonView};
use vstd::prelude::*;
use crate::text::{decimal, decimal_string};
use vstd::std_specs::convert::FromSpecImpl;
use vstd::string::StringExecFns;

verus! {

/// The structural type of a JSON value.
#[derive(Debug, Clone, Copy, PartialEq, Eq, Structural)]
pub enum JType {
    Object,
    Array,
    String,
    Number,
    Bool,
    Null,
}

/// The structural type of a modelled value.
pub open spec fn type_of(v: JsonView) -> JType {
    match v {
        JsonView::Object(_) => JType::Object,
        JsonView::Array(_) => JType::Array,
        JsonView::String(_) => JType::String,
        JsonView::Number(_) => JType::Number,
        JsonView::Bool(_) => JType::Bool,
        JsonView::Null => JType::Null,
    }
}

/// The name under which a type is printed.
pub open spec fn jtype_text(t: JType) -> Seq<char> {
    match t {
        JType::Object => "Object"@,
        JType::Array => "Array"@,
        JType::String => "String"@,
        JType::Number => "Number"@,
        JType::Bool => "Bool"@,
        JType::Null => "Null"@,
    }
}

impl<'a> From<&'a Json> for JType {
    fn from(json: &'a Json) -> (t: JType) {
        match json {
            Json::Object(_) => JType::Object,
            Json::Array(_) => JType::Array,
            Json::String(_) => JType::String,
            Json::Number(_) => JType::Number,
            Json::Bool(_) => JType::Bool,
            Json::Null => JType::Null,
        }
    }
}

impl<'a> FromSpecImpl<&'a Json> for JType {
    open spec fn obeys_from_spec() -> bool {
        true
    }

    open spec fn from_spec(json: &'a Json) -> JType {
        type_of(json@)
    }
}

impl JType {
    /// The printed name of this type, as an owned text.
    pub fn to_string(&self) -> (s: String)
        ensures
            s@ == jtype_text(*self),
    {
        String::from_str(self.name())
    }

    /// The printed name of this type.
    pub fn name(&self) -> (s: &'static str)
        ensures
            s@ == jtype_text(*self),
    {
        match self {
            JType::Object => "Object",
            JType::Array => "Array",
            JType::String => "String",
            JType::Number => "Number",
            JType::Bool => "Bool",
            JType::Null => "Null",
        }
    }
}


/// One field of a record.
#[derive(Debug, PartialEq, Eq)]
pub enum BlockKind {
    Ident(usize),
    Delimiter(char),
    Type(JType),
    Pointer(String),
    Value(Option<String>),
}

/// The model of a [`BlockKind`].
pub ghost enum BlockView {
    Ident(usize),
    Delimiter(char),
    Type(JType),
    Pointer(Seq<char>),
    Value(Option<Seq<char>>),
}

/// The model of an optional text.
pub open spec fn text_view(v: Option<String>) -> Option<Seq<char>> {
    match v {
        Some(s) => Some(s@),
        None => None,
    }
}

impl View for BlockKind {
    type V = BlockView;

    open spec fn view(&self) -> BlockView {
        match self {
            BlockKind::Ident(i) => BlockView::Ident(*i),
            BlockKind::Delimiter(d) => BlockView::Delimiter(*d),
            BlockKind::Type(t) => BlockView::Type(*t),
            BlockKind::Pointer(p) => BlockView::Pointer(p@),
            BlockKind::Value(v) => BlockView::Value(text_view(*v)),
        }
    }
}

/// The position a block takes in a record: identifier, delimiter, type,
/// pointer, value.
pub open spec fn slot_of(b: BlockView) -> int {
    match b {
        BlockView::Ident(_) => 0,
        BlockView::Delimiter(_) => 1,
        BlockView::Type(_) => 2,
        BlockView::Pointer(_) => 3,
        BlockView::Value(_) => 4,
    }
}

/// The text a block prints as. An absent value prints as nothing.
pub open spec fn block_text(b: BlockView) -> Seq<char> {
    match b {
        BlockView::Ident(i) => decimal(i as nat),
        BlockView::Delimiter(d) => seq![d],
        BlockView::Type(t) => jtype_text(t),
        BlockView::Pointer(p) => p,
        BlockView::Value(Some(v)) => v,
        BlockView::Value(None) => Seq::empty(),
    }
}

/// `char::to_string` of std: the text made of the one character `c`.
#[verifier::external_body]
fn char_text(c: char) -> (s: String)
    ensures
        s@ == seq![c],
{
    c.to_string()
}

impl BlockKind {
    fn slot(&self) -> (r: u8)
        ensures
            r == slot_of(self@),
    {
        match self {
            BlockKind::Ident(_) => 0,
            BlockKind::Delimiter(_) => 1,
            BlockKind::Type(_) => 2,
            BlockKind::Pointer(_) => 3,
            BlockKind::Value(_) => 4,
        }
    }

    /// A copy of this block.
    pub fn duplicate(&self) -> (b: BlockKind)
        ensures
            b@ == self@,
    {
        match self {
            BlockKind::Ident(i) => BlockKind::Ident(*i),
            BlockKind::Delimiter(d) => BlockKind::Delimiter(*d),
            BlockKind::Type(t) => BlockKind::Type(*t),
            BlockKind::Pointer(p) => BlockKind::Pointer(p.clone()),
            BlockKind::Value(Some(v)) => BlockKind::Value(Some(v.clone())),
            BlockKind::Value(None) => BlockKind::Value(None),
        }
    }

    /// The text this block prints as.
    pub fn to_string(&self) -> (s: String)
        ensures
            s@ == block_text(self@),
    {
        match self {
            BlockKind::Ident(i) => decimal_string(*i),
            BlockKind::Delimiter(d) => char_text(*d),
            BlockKind::Type(t) => String::from_str(t.name()),
            BlockKind::Pointer(p) => p.clone(),
            BlockKind::Value(Some(v)) => v.clone(),
            BlockKind::Value(None) => String::new(),
        }
    }
}

/// The first block of `blocks` that belongs in position `slot`.
pub open spec fn first_in_slot(blocks: Seq<BlockView>, slot: int) -> Option<BlockView>
    decreases blocks.len(),
{
    if blocks.len() == 0 {
        None
    } else if slot_of(blocks[0]) == slot {
        Some(blocks[0])
    } else {
        first_in_slot(blocks.drop_first(), slot)
    }
}

/// The models of a run of blocks.
pub open spec fn blocks_view(blocks: Seq<BlockKind>) -> Seq<BlockView> {
    Seq::new(blocks.len(), |i: int| blocks[i]@)
}

/// A finished record: its blocks in the order they were assembled.
#[derive(Debug, PartialEq, Eq)]
pub struct Output {
    blocks: Vec<BlockKind>,
}

impl View for Output {
    type V = Seq<BlockView>;

    closed spec fn view(&self) -> Seq<BlockView> {
        blocks_view(self.blocks@)
    }
}

impl Output {
    /// The first block in position `slot`, if the record has one.
    fn find(&self, slot: u8) -> (r: Option<BlockKind>)
        ensures
            match first_in_slot(self@, slot as int) {
                Some(b) => r matches Some(x) && x@ == b,
                None => r is None,
            },
    {
        let mut i: usize = 0;
        assert(self@.skip(0) =~= self@);
        while i < self.blocks.len()
            invariant
                i <= self.blocks.len(),
                first_in_slot(self@, slot as int) == first_in_slot(self@.skip(i as int), slot as int),
            decreases self.blocks.len() - i,
        {
            proof {
                assert(self@.skip(i as int)[0] == self.blocks[i as int]@);
                assert(self@.skip(i as int).drop_first() =~= self@.skip(i as int + 1));
            }
            if self.blocks[i].slot() == slot {
                return Some(self.blocks[i].duplicate());
            }
            i += 1;
        }
        assert(self@.skip(i as int).len() == 0);
        None
    }

    /// The record's blocks, in order.
    pub fn blocks(&self) -> (r: &Vec<BlockKind>)
        ensures
            r.len() == self@.len(),
            forall|i: int| 0 <= i < r.len() ==> r[i]@ == self@[i],
    {
        &self.blocks
    }

    fn get_ident(&self) -> (r: Option<BlockKind>)
        ensures
            match first_in_slot(self@, 0) {
                Some(b) => r matches Some(x) && x@ == b,
                None => r is None,
            },
    {
        self.find(0)
    }

    fn get_delimiter(&self) -> (r: Option<BlockKind>)
        ensures
            match first_in_slot(self@, 1) {
                Some(b) => r matches Some(x) && x@ == b,
                None => r is None,
            },
    {
        self.find(1)
    }

    fn get_type(&self) -> (r: Option<BlockKind>)
        ensures
            match first_in_slot(self@, 2) {
                Some(b) => r matches Some(x) && x@ == b,
                None => r is None,
            },
    {
        self.find(2)
    }

    fn get_pointer(&self) -> (r: Option<BlockKind>)
        ensures
            match first_in_slot(self@, 3) {
                Some(b) => r matches Some(x) && x@ == b,
                None => r is None,
            },
    {
        self.find(3)
    }

    fn get_value(&self) -> (r: Option<BlockKind>)
        ensures
            match first_in_slot(self@, 4) {
                Some(b) => r matches Some(x) && x@ == b,
                None => r is None,
            },
    {
        self.find(4)
    }
}

/// What a lookup of position `slot` in `blocks` owes its caller: the first
/// block in that position, or the generic error where there is none.
pub open spec fn lookup_result(
    blocks: Seq<BlockView>,
    slot: int,
    r: Result<BlockKind, ErrorKind>,
) -> bool {
    match first_in_slot(blocks, slot) {
        Some(b) => r matches Ok(x) && x@ == b,
        None => r matches Err(ErrorKind::Generic),
    }
}

fn found_or_generic(found: Option<BlockKind>) -> (r: Result<BlockKind, ErrorKind>)
    ensures
        match found {
            Some(b) => r == Ok::<BlockKind, ErrorKind>(b),
            None => r matches Err(ErrorKind::Generic),
        },
{
    match found {
        Some(b) => Ok(b),
        None => Err(ErrorKind::Generic),
    }
}

/// Access to the fields of a record by name.
pub trait Builder {
    type Block;

    type Error;

    fn identifer(&self) -> Result<Self::Block, Self::Error>;

    fn delimiter(&self) -> Result<Self::Block, Self::Error>;

    fn jtype(&self) -> Result<Self::Block, Self::Error>;

    fn pointer(&self) -> Result<Self::Block, Self::Error>;

    fn value(&self) -> Result<Self::Block, Self::Error>;
}

impl Builder for Output {
    type Block = BlockKind;

    type Error = ErrorKind;

    fn identifer(&self) -> (r: Result<BlockKind, ErrorKind>)
        ensures
            lookup_result(self@, 0, r),
    {
        found_or_generic(self.get_ident())
    }

    fn delimiter(&self) -> (r: Result<BlockKind, ErrorKind>)
        ensures
            lookup_result(self@, 1, r),
    {
        found_or_generic(self.get_delimiter())
    }

    fn jtype(&self) -> (r: Result<BlockKind, ErrorKind>)
        ensures
            lookup_result(self@, 2, r),
    {
        found_or_generic(self.get_type())
    }

    fn pointer(&self) -> (r: Result<BlockKind, ErrorKind>)
        ensures
            lookup_result(self@, 3, r),
    {
        found_or_generic(self.get_pointer())
    }

    fn value(&self) -> (r: Result<BlockKind, ErrorKind>)
        ensures
            lookup_result(self@, 4, r),
    {
        found_or_generic(self.get_value())
    }
}

/// Assembles a record field by field; each field has a fixed position.
#[derive(Debug, PartialEq, Eq)]
pub struct OutputBuilder {
    ident: Option<usize>,
    delim: Option<char>,
    jtype: Option<JType>,
    pointer: Option<String>,
    value: Option<Option<String>>,
}

/// The model of an [`OutputBuilder`]: which fields are set, and to what.
pub ghost struct BuilderView {
    pub ident: Option<usize>,
    pub delim: Option<char>,
    pub jtype: Option<JType>,
    pub pointer: Option<Seq<char>>,
    pub value: Option<Option<Seq<char>>>,
}

/// `blocks` followed by `block`, where there is one.
pub open spec fn with_block(blocks: Seq<BlockView>, block: Option<BlockView>) -> Seq<BlockView> {
    match block {
        Some(b) => blocks.push(b),
        None => blocks,
    }
}

/// The blocks of a builder's fields that are set, in position order:
/// identifier, delimiter, type, pointer, value.
pub open spec fn blocks_of(b: BuilderView) -> Seq<BlockView> {
    let s0 = Seq::<BlockView>::empty();
    let s1 = with_block(
        s0,
        match b.ident {
            Some(i) => Some(BlockView::Ident(i)),
            None => None,
        },
    );
    let s2 = with_block(
        s1,
        match b.delim {
            Some(d) => Some(BlockView::Delimiter(d)),
            None => None,
        },
    );
    let s3 = with_block(
        s2,
        match b.jtype {
            Some(t) => Some(BlockView::Type(t)),
            None => None,
        },
    );
    let s4 = with_block(
        s3,
        match b.pointer {
            Some(p) => Some(BlockView::Pointer(p)),
            None => None,
        },
    );
    with_block(
        s4,
        match b.value {
            Some(v) => Some(BlockView::Value(v)),
            None => None,
        },
    )
}

proof fn lemma_blocks_view_push(blocks: Seq<BlockKind>, b: BlockKind)
    ensures
        blocks_view(blocks.push(b)) == blocks_view(blocks).push(b@),
{
    assert(blocks_view(blocks.push(b)) =~= blocks_view(blocks).push(b@));
}

impl View for OutputBuilder {
    type V = BuilderView;

    closed spec fn view(&self) -> BuilderView {
        BuilderView {
            ident: self.ident,
            delim: self.delim,
            jtype: self.jtype,
            pointer: match self.pointer {
                Some(p) => Some(p@),
                None => None,
            },
            value: match self.value {
                Some(v) => Some(text_view(v)),
                None => None,
            },
        }
    }
}

impl OutputBuilder {
    /// A builder with no field set.
    pub fn new() -> (b: OutputBuilder)
        ensures
            b@ == (BuilderView { ident: None, delim: None, jtype: None, pointer: None, value: None }),
    {
        OutputBuilder { ident: None, delim: None, jtype: None, pointer: None, value: None }
    }

    /// The record made of the fields that were set, in position order.
    pub fn done(self) -> (out: Output)
        ensures
            out@ == blocks_of(self@),
    {
        let mut blocks: Vec<BlockKind> = Vec::new();
        let ghost view = self@;
        let OutputBuilder { ident, delim, jtype, pointer, value } = self;
        assert(blocks_view(blocks@) =~= Seq::<BlockView>::empty());
        if let Some(i) = ident {
            proof {
                lemma_blocks_view_push(blocks@, BlockKind::Ident(i));
            }
            blocks.push(BlockKind::Ident(i));
        }
        if let Some(d) = delim {
            proof {
                lemma_blocks_view_push(blocks@, BlockKind::Delimiter(d));
            }
            blocks.push(BlockKind::Delimiter(d));
        }
        if let Some(t) = jtype {
            proof {
                lemma_blocks_view_push(blocks@, BlockKind::Type(t));
            }
            blocks.push(BlockKind::Type(t));
        }
        if let Some(p) = pointer {
            proof {
                lemma_blocks_view_push(blocks@, BlockKind::Pointer(p));
            }
            blocks.push(BlockKind::Pointer(p));
        }
        if let Some(v) = value {
            proof {
                lemma_blocks_view_push(blocks@, BlockKind::Value(v));
            }
            blocks.push(BlockKind::Value(v));
        }
        Output { blocks }
    }

    /// The pointer that was set, or the empty text where none was.
    pub fn pointer_text(&self) -> (s: String)
        ensures
            s@ == match self@.pointer {
                Some(p) => p,
                None => Seq::empty(),
            },
    {
        match &self.pointer {
            Some(p) => p.clone(),
            None => String::new(),
        }
    }

    /// Sets the identifier.
    pub fn ident(self, id: usize) -> (b: OutputBuilder)
        ensures
            b@ == (BuilderView { ident: Some(id), ..self@ }),
    {
        let mut b = self;
        b.ident = Some(id);
        b
    }

    /// Sets the delimiter.
    pub fn delim(self, delim: char) -> (b: OutputBuilder)
        ensures
            b@ == (BuilderView { delim: Some(delim), ..self@ }),
    {
        let mut b = self;
        b.delim = Some(delim);
        b
    }

    /// Sets the type.
    pub fn type_of(self, jtype: JType) -> (b: OutputBuilder)
        ensures
            b@ == (BuilderView { jtype: Some(jtype), ..self@ }),
    {
        let mut b = self;
        b.jtype = Some(jtype);
        b
    }

    /// Sets the pointer.
    pub fn pointer(self, jptr: String) -> (b: OutputBuilder)
        ensures
            b@ == (BuilderView { pointer: Some(jptr@), ..self@ }),
    {
        let mut b = self;
        b.pointer = Some(jptr);
        b
    }

    /// Sets the value; `None` marks a record that carries no value.
    pub fn value(self, val: Option<String>) -> (b: OutputBuilder)
        ensures
            b@ == (BuilderView { value: Some(text_view(val)), ..self@ }),
    {
        let mut b = self;
        b.value = Some(val);
        b
    }
}

} // verus!
