//! The classified forms of skill-tree node lines that aggregation consumes.
use vstd::prelude::*;

verus! {

/// What a conversion reads from or writes to.
#[derive(Clone, Copy, Debug, PartialEq, Eq, Structural)]
pub enum ConvertKind {
    Attribute,
    Stat,
}

/// "X% of A added as B": `pct` (in millionths of a percentage point) of the
/// value under `from_key` is added under `to_key`.
#[derive(Debug)]
pub struct ParsedConversion {
    pub from_kind: ConvertKind,
    pub from_key: String,
    pub to_kind: ConvertKind,
    pub to_key: String,
    pub pct: i64,
}

/// What a disabling line turns off.
#[derive(Clone, Copy, Debug, PartialEq, Eq, Structural)]
pub enum DisableTarget {
    LifeReplenish,
}

#[derive(Clone, Copy, Debug)]
pub struct ParsedDisable {
    pub target: DisableTarget,
}

/// A line that does not add a stat but changes how stats are computed.
#[derive(Debug)]
pub enum ParsedMeta {
    Convert(ParsedConversion),
    Disable(ParsedDisable),
}

/// A line that adds `value` (in millionths) to the stat `key`, while the
/// player condition `self_condition` holds when there is one.
#[derive(Debug)]
pub struct ParsedMod {
    pub key: String,
    pub value: i64,
    pub self_condition: Option<String>,
}

/// How the tree-line parser classified one line.
#[derive(Debug)]
pub enum TreeLineClass {
    Stat(ParsedMod),
    Meta(ParsedMeta),
    /// Understood, but carries no stat (such as a socket slot).
    RecognizedNoStat,
    Unknown,
}

/// One line of a tree node: its text and its classification.
#[derive(Debug)]
pub struct TreeLine {
    pub text: String,
    pub class: TreeLineClass,
}

/// A skill-tree node.
#[derive(Debug)]
pub struct TreeNodeInfo {
    pub title: String,
    pub kind: String,
    pub lines: Vec<TreeLine>,
}

/// A copy of `c`.
pub fn copy_conversion(c: &ParsedConversion) -> (r: ParsedConversion)
    ensures
        r == *c,
{
    ParsedConversion {
        from_kind: c.from_kind,
        from_key: c.from_key.clone(),
        to_kind: c.to_kind,
        to_key: c.to_key.clone(),
        pct: c.pct,
    }
}

} // verus!
