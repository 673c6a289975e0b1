//! Parsed AQL statements, the planner's input.
use vstd::prelude::*;
use crate::json::Json;
use crate::predicate::{Condition, FollowLinks, Modifiers, Predicate, Value, Window, WithLinks};
use crate::time::Ttl;

verus! {

/// A memory kind as written in a statement; `ALL` stands for every kind.
#[derive(Clone, Copy, Debug, PartialEq, Eq, Structural)]
pub enum AstMemoryType {
    Working,
    Tools,
    Procedural,
    Semantic,
    Episodic,
    All,
}

/// `field = value` in a STORE or UPDATE payload.
#[derive(Debug)]
pub struct FieldAssignment {
    pub field: String,
    pub value: Value,
}

/// `PIPELINE name [TIMEOUT t] stage | stage | ...`
#[derive(Debug)]
pub struct PipelineStmt {
    pub name: String,
    pub timeout: Option<Ttl>,
    pub stages: Vec<Statement>,
}

/// One `FROM kind [predicate]` of a REFLECT.
#[derive(Debug)]
pub struct ReflectSource {
    pub memory_type: AstMemoryType,
    pub predicate: Option<Predicate>,
}

/// `REFLECT FROM ... [WITH LINKS ..] [FOLLOW LINKS ..] [THEN statement]`
#[derive(Debug)]
pub struct ReflectStmt {
    pub sources: Vec<ReflectSource>,
    pub with_links: Option<WithLinks>,
    pub follow_links: Option<FollowLinks>,
    pub then_clause: Option<Box<Statement>>,
}

/// `SCAN FROM WORKING [WINDOW ..] modifiers`
#[derive(Debug)]
pub struct ScanStmt {
    pub window: Option<Window>,
    pub modifiers: Modifiers,
}

/// `RECALL FROM kind predicate modifiers`
#[derive(Debug)]
pub struct RecallStmt {
    pub memory_type: AstMemoryType,
    pub predicate: Predicate,
    pub modifiers: Modifiers,
}

/// `LOOKUP FROM kind predicate modifiers`
#[derive(Debug)]
pub struct LookupStmt {
    pub memory_type: AstMemoryType,
    pub predicate: Predicate,
    pub modifiers: Modifiers,
}

/// `LOAD FROM TOOLS predicate modifiers`
#[derive(Debug)]
pub struct LoadStmt {
    pub predicate: Predicate,
    pub modifiers: Modifiers,
}

/// `STORE INTO kind (field = value, ...) modifiers`
#[derive(Debug)]
pub struct StoreStmt {
    pub memory_type: AstMemoryType,
    pub payload: Vec<FieldAssignment>,
    pub modifiers: Modifiers,
}

/// `UPDATE kind SET (field = value, ...) WHERE conditions modifiers`
#[derive(Debug)]
pub struct UpdateStmt {
    pub memory_type: AstMemoryType,
    pub conditions: Vec<Condition>,
    pub payload: Vec<FieldAssignment>,
    pub modifiers: Modifiers,
}

/// `FORGET FROM kind WHERE conditions modifiers`
#[derive(Debug)]
pub struct ForgetStmt {
    pub memory_type: AstMemoryType,
    pub conditions: Vec<Condition>,
    pub modifiers: Modifiers,
}

/// `LINK FROM kind WHERE .. TO kind WHERE .. TYPE t [WEIGHT w]`
#[derive(Debug)]
pub struct LinkStmt {
    pub from_type: AstMemoryType,
    pub from_conditions: Vec<Condition>,
    pub to_type: AstMemoryType,
    pub to_conditions: Vec<Condition>,
    pub link_type: String,
    /// Weight (an `f32` bit pattern); 1.0 when absent.
    pub weight: Option<u32>,
}

/// A parsed statement.
#[derive(Debug)]
pub enum Statement {
    Pipeline(PipelineStmt),
    Reflect(ReflectStmt),
    Scan(ScanStmt),
    Recall(RecallStmt),
    Lookup(LookupStmt),
    Load(LoadStmt),
    Store(StoreStmt),
    Update(UpdateStmt),
    Forget(ForgetStmt),
    Link(LinkStmt),
}

} // verus!
