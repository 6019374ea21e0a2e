//! The abstract command tree that a parsed stub description yields, and the
//! mathematical models that the parser's and renderer's contracts speak of.
use vstd::prelude::*;

pub mod language;
pub mod parser;
pub mod renderer;

verus! {

/// The primitive type of one declared input variable.
#[derive(Clone, Copy, Debug, PartialEq, Eq, Structural)]
pub enum VarType {
    Int,
    Float,
    Long,
    Bool,
    Word,
    Str,
}

/// One declared input variable. `max_length` is present exactly when the
/// type is a length-bounded one (`Word` or `Str`).
#[derive(Clone, Debug, PartialEq, Eq)]
pub struct Var {
    pub name: String,
    pub var_type: VarType,
    pub max_length: Option<u64>,
}

/// The ghost image of a `Var`.
pub struct VarModel {
    pub name: Seq<char>,
    pub var_type: VarType,
    pub max_length: Option<u64>,
}

impl View for Var {
    type V = VarModel;

    open spec fn view(&self) -> VarModel {
        VarModel { name: self.name@, var_type: self.var_type, max_length: self.max_length }
    }
}

impl Var {
    /// A variable of a fixed-size type, carrying no length bound.
    pub fn new(name: String, var_type: VarType) -> (r: Var)
        ensures
            r@ == (VarModel { name: name@, var_type, max_length: None }),
    {
        Var { name, var_type, max_length: None }
    }

    /// A variable of a length-bounded type.
    pub fn new_length(name: String, var_type: VarType, max_length: u64) -> (r: Var)
        ensures
            r@ == (VarModel { name: name@, var_type, max_length: Some(max_length) }),
    {
        Var { name, var_type, max_length: Some(max_length) }
    }

    /// Does the length bound accompany exactly the types that need one?
    pub open spec fn wf(self) -> bool {
        (self.max_length is Some) <==> (self.var_type == VarType::Word || self.var_type
            == VarType::Str)
    }
}

/// Documents the meaning of one input variable.
#[derive(Clone, Debug, PartialEq, Eq)]
pub struct InputComment {
    pub variable_name: String,
    pub comment_text: String,
}

/// The ghost image of an `InputComment`.
pub struct InputCommentModel {
    pub variable_name: Seq<char>,
    pub comment_text: Seq<char>,
}

impl View for InputComment {
    type V = InputCommentModel;

    open spec fn view(&self) -> InputCommentModel {
        InputCommentModel { variable_name: self.variable_name@, comment_text: self.comment_text@ }
    }
}

impl InputComment {
    pub fn new(variable_name: String, comment_text: String) -> (r: InputComment)
        ensures
            r@ == (InputCommentModel {
                variable_name: variable_name@,
                comment_text: comment_text@,
            }),
    {
        InputComment { variable_name, comment_text }
    }
}

/// One instruction of the command tree.
pub enum Cmd {
    Read(Vec<Var>),
    Write(String),
    Loop { count: String, command: Box<Cmd> },
    LoopLine { object: String, variables: Vec<Var> },
}

/// The ghost image of a `Cmd`.
pub enum CmdModel {
    Read(Seq<VarModel>),
    Write(Seq<char>),
    Loop { count: Seq<char>, command: Box<CmdModel> },
    LoopLine { object: Seq<char>, variables: Seq<VarModel> },
}

pub open spec fn cmd_view(c: Cmd) -> CmdModel
    decreases c,
{
    match c {
        Cmd::Read(vars) => CmdModel::Read(vars@.map_values(|v: Var| v@)),
        Cmd::Write(message) => CmdModel::Write(message@),
        Cmd::Loop { count, command } => CmdModel::Loop {
            count: count@,
            command: Box::new(cmd_view(*command)),
        },
        Cmd::LoopLine { object, variables } => CmdModel::LoopLine {
            object: object@,
            variables: variables@.map_values(|v: Var| v@),
        },
    }
}

impl View for Cmd {
    type V = CmdModel;

    open spec fn view(&self) -> CmdModel {
        cmd_view(*self)
    }
}

/// The root artifact of one parse: metadata plus the ordered command list.
pub struct Stub {
    pub output_comment: String,
    pub input_comments: Vec<InputComment>,
    pub statement: String,
    pub commands: Vec<Cmd>,
}

/// The ghost image of a `Stub`.
pub struct StubModel {
    pub output_comment: Seq<char>,
    pub input_comments: Seq<InputCommentModel>,
    pub statement: Seq<char>,
    pub commands: Seq<CmdModel>,
}

impl View for Stub {
    type V = StubModel;

    open spec fn view(&self) -> StubModel {
        StubModel {
            output_comment: self.output_comment@,
            input_comments: self.input_comments@.map_values(|c: InputComment| c@),
            statement: self.statement@,
            commands: self.commands@.map_values(|c: Cmd| c@),
        }
    }
}

impl StubModel {
    /// The model of a stub with nothing parsed into it yet.
    pub open spec fn empty() -> StubModel {
        StubModel {
            output_comment: Seq::<char>::empty(),
            input_comments: Seq::<InputCommentModel>::empty(),
            statement: Seq::<char>::empty(),
            commands: Seq::<CmdModel>::empty(),
        }
    }
}

impl Stub {
    /// A stub with nothing parsed into it yet.
    pub fn new() -> (r: Stub)
        ensures
            r@ == StubModel::empty(),
    {
        let r = Stub {
            output_comment: String::new(),
            input_comments: Vec::new(),
            statement: String::new(),
            commands: Vec::new(),
        };
        proof {
            assert(r@.input_comments =~= Seq::<InputCommentModel>::empty());
            assert(r@.commands =~= Seq::<CmdModel>::empty());
        }
        r
    }
}

} // verus!
