//! The query and update operators of the wire protocol, as a plain
//! enumeration mapping each operator to its wire name, so that queries name
//! operators by a checked identifier instead of a raw string.

use vstd::prelude::*;

verus! {

/// A wire-protocol operator.
#[derive(Clone, Copy, Debug, PartialEq, Eq, Structural)]
pub enum Operator {
    Equal,
    GreaterThan,
    GreaterThanEqual,
    In,
    LesserThan,
    LesserThanEqual,
    NotEqual,
    NoneIn,
    And,
    Not,
    Nor,
    Or,
    Exists,
    Type,
    Expr,
    JsonSchema,
    Mod,
    Regex,
    Text,
    Where,
    GeoIntersects,
    GeoWithin,
    Near,
    NearSphere,
    All,
    ElemMatch,
    Size,
    BitsAllClear,
    BitsAllSet,
    BitsAnyClear,
    BitsAnySet,
    Comment,
    ProjectFirst,
    Meta,
    Slice,
    CurrentDate,
    Inc,
    Min,
    Max,
    Mul,
    Rename,
    SetField,
    SetOnInsert,
    Unset,
    UpdateFirstDocument,
    UpdateAllDocuments,
    AddToSet,
    Pop,
    Pull,
    Push,
    PullAll,
    Each,
    Position,
    Sort,
    Bit,
}

impl Operator {
    /// The operator's wire name.
    pub open spec fn spec_symbol(self) -> Seq<char> {
        match self {
            Operator::Equal => "$eq"@,
            Operator::GreaterThan => "$gt"@,
            Operator::GreaterThanEqual => "$gte"@,
            Operator::In => "$in"@,
            Operator::LesserThan => "$lt"@,
            Operator::LesserThanEqual => "$lte"@,
            Operator::NotEqual => "$ne"@,
            Operator::NoneIn => "$nin"@,
            Operator::And => "$and"@,
            Operator::Not => "$not"@,
            Operator::Nor => "$nor"@,
            Operator::Or => "$or"@,
            Operator::Exists => "$exists"@,
            Operator::Type => "$type"@,
            Operator::Expr => "$expr"@,
            Operator::JsonSchema => "$jsonSchema"@,
            Operator::Mod => "$mod"@,
            Operator::Regex => "$regex"@,
            Operator::Text => "$text"@,
            Operator::Where => "$where"@,
            Operator::GeoIntersects => "$geoIntersects"@,
            Operator::GeoWithin => "$geoWithin"@,
            Operator::Near => "$near"@,
            Operator::NearSphere => "$nearSphere"@,
            Operator::All => "$all"@,
            Operator::ElemMatch => "$elemMatch"@,
            Operator::Size => "$size"@,
            Operator::BitsAllClear => "$bitsAllClear"@,
            Operator::BitsAllSet => "$bitsAllSet"@,
            Operator::BitsAnyClear => "$bitsAnyClear"@,
            Operator::BitsAnySet => "$bitsAnySet"@,
            Operator::Comment => "$comment"@,
            Operator::ProjectFirst => "$"@,
            Operator::Meta => "$meta"@,
            Operator::Slice => "$slice"@,
            Operator::CurrentDate => "$currentDate"@,
            Operator::Inc => "$inc"@,
            Operator::Min => "$min"@,
            Operator::Max => "$max"@,
            Operator::Mul => "$mul"@,
            Operator::Rename => "$rename"@,
            Operator::SetField => "$set"@,
            Operator::SetOnInsert => "$setOnInsert"@,
            Operator::Unset => "$unset"@,
            Operator::UpdateFirstDocument => "$"@,
            Operator::UpdateAllDocuments => "$[]"@,
            Operator::AddToSet => "$addToSet"@,
            Operator::Pop => "$pop"@,
            Operator::Pull => "$pull"@,
            Operator::Push => "$push"@,
            Operator::PullAll => "$pullAll"@,
            Operator::Each => "$each"@,
            Operator::Position => "$position"@,
            Operator::Sort => "$sort"@,
            Operator::Bit => "$bit"@,
        }
    }

    /// The operator's wire name.
    pub fn symbol(&self) -> (r: &str)
        ensures
            r@ == self.spec_symbol(),
    {
        match self {
            Operator::Equal => "$eq",
            Operator::GreaterThan => "$gt",
            Operator::GreaterThanEqual => "$gte",
            Operator::In => "$in",
            Operator::LesserThan => "$lt",
            Operator::LesserThanEqual => "$lte",
            Operator::NotEqual => "$ne",
            Operator::NoneIn => "$nin",
            Operator::And => "$and",
            Operator::Not => "$not",
            Operator::Nor => "$nor",
            Operator::Or => "$or",
            Operator::Exists => "$exists",
            Operator::Type => "$type",
            Operator::Expr => "$expr",
            Operator::JsonSchema => "$jsonSchema",
            Operator::Mod => "$mod",
            Operator::Regex => "$regex",
            Operator::Text => "$text",
            Operator::Where => "$where",
            Operator::GeoIntersects => "$geoIntersects",
            Operator::GeoWithin => "$geoWithin",
            Operator::Near => "$near",
            Operator::NearSphere => "$nearSphere",
            Operator::All => "$all",
            Operator::ElemMatch => "$elemMatch",
            Operator::Size => "$size",
            Operator::BitsAllClear => "$bitsAllClear",
            Operator::BitsAllSet => "$bitsAllSet",
            Operator::BitsAnyClear => "$bitsAnyClear",
            Operator::BitsAnySet => "$bitsAnySet",
            Operator::Comment => "$comment",
            Operator::ProjectFirst => "$",
            Operator::Meta => "$meta",
            Operator::Slice => "$slice",
            Operator::CurrentDate => "$currentDate",
            Operator::Inc => "$inc",
            Operator::Min => "$min",
            Operator::Max => "$max",
            Operator::Mul => "$mul",
            Operator::Rename => "$rename",
            Operator::SetField => "$set",
            Operator::SetOnInsert => "$setOnInsert",
            Operator::Unset => "$unset",
            Operator::UpdateFirstDocument => "$",
            Operator::UpdateAllDocuments => "$[]",
            Operator::AddToSet => "$addToSet",
            Operator::Pop => "$pop",
            Operator::Pull => "$pull",
            Operator::Push => "$push",
            Operator::PullAll => "$pullAll",
            Operator::Each => "$each",
            Operator::Position => "$position",
            Operator::Sort => "$sort",
            Operator::Bit => "$bit",
        }
    }
}

} // verus!
