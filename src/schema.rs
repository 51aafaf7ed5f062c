//! The schema table: which discriminant values are accepted, and for each
//! accepted kind the ordered fields it carries, their target types and
//! whether they are required.
use vstd::prelude::*;

verus! {

/// The target type of a field.
#[derive(Clone, Copy, PartialEq, Eq, Structural, Debug)]
pub enum Kind {
    Unsigned,
    Signed,
    Text,
    /// The record kind's own name, taken from the discriminant.
    Label,
}

/// One output column, in the order of the output header.
#[derive(Clone, Copy, PartialEq, Eq, Structural, Debug)]
pub enum Column {
    Id,
    PostType,
    AcceptedAnswerId,
    ParentId,
    CreationDate,
    Score,
    ViewCount,
    OwnerUserId,
    Title,
    Tags,
    AnswerCount,
    CommentCount,
}

/// The record kinds that are kept.
#[derive(Clone, Copy, PartialEq, Eq, Structural, Debug)]
pub enum PostType {
    Question,
    Answer,
}

/// A field of a kind's schema: which column, and whether a record of that
/// kind must carry it.
#[derive(Clone, Copy, PartialEq, Eq, Structural, Debug)]
pub struct FieldRule {
    pub column: Column,
    pub required: bool,
}

/// The discriminant value of questions.
pub const QUESTION_ID: u64 = 1;

/// The discriminant value of answers.
pub const ANSWER_ID: u64 = 2;

/// The kind a discriminant value selects; `None` for every value that is
/// dropped.
pub open spec fn post_type_of(d: u64) -> Option<PostType> {
    if d == QUESTION_ID {
        Some(PostType::Question)
    } else if d == ANSWER_ID {
        Some(PostType::Answer)
    } else {
        None
    }
}

pub open spec fn column_kind(c: Column) -> Kind {
    match c {
        Column::Id => Kind::Unsigned,
        Column::PostType => Kind::Label,
        Column::AcceptedAnswerId => Kind::Unsigned,
        Column::ParentId => Kind::Unsigned,
        Column::CreationDate => Kind::Text,
        Column::Score => Kind::Signed,
        Column::ViewCount => Kind::Unsigned,
        Column::OwnerUserId => Kind::Unsigned,
        Column::Title => Kind::Text,
        Column::Tags => Kind::Text,
        Column::AnswerCount => Kind::Unsigned,
        Column::CommentCount => Kind::Unsigned,
    }
}

/// The name of the input attribute that carries a column, as ASCII bytes.
pub open spec fn attr_name(c: Column) -> Seq<u8> {
    match c {
        // "Id"
        Column::Id => seq![73u8, 100u8],
        // "PostTypeId"
        Column::PostType => seq![80u8, 111u8, 115u8, 116u8, 84u8, 121u8, 112u8, 101u8, 73u8, 100u8],
        // "AcceptedAnswerId"
        Column::AcceptedAnswerId => seq![65u8, 99u8, 99u8, 101u8, 112u8, 116u8, 101u8, 100u8, 65u8, 110u8, 115u8, 119u8, 101u8, 114u8, 73u8, 100u8],
        // "ParentId"
        Column::ParentId => seq![80u8, 97u8, 114u8, 101u8, 110u8, 116u8, 73u8, 100u8],
        // "CreationDate"
        Column::CreationDate => seq![67u8, 114u8, 101u8, 97u8, 116u8, 105u8, 111u8, 110u8, 68u8, 97u8, 116u8, 101u8],
        // "Score"
        Column::Score => seq![83u8, 99u8, 111u8, 114u8, 101u8],
        // "ViewCount"
        Column::ViewCount => seq![86u8, 105u8, 101u8, 119u8, 67u8, 111u8, 117u8, 110u8, 116u8],
        // "OwnerUserId"
        Column::OwnerUserId => seq![79u8, 119u8, 110u8, 101u8, 114u8, 85u8, 115u8, 101u8, 114u8, 73u8, 100u8],
        // "Title"
        Column::Title => seq![84u8, 105u8, 116u8, 108u8, 101u8],
        // "Tags"
        Column::Tags => seq![84u8, 97u8, 103u8, 115u8],
        // "AnswerCount"
        Column::AnswerCount => seq![65u8, 110u8, 115u8, 119u8, 101u8, 114u8, 67u8, 111u8, 117u8, 110u8, 116u8],
        // "CommentCount"
        Column::CommentCount => seq![67u8, 111u8, 109u8, 109u8, 101u8, 110u8, 116u8, 67u8, 111u8, 117u8, 110u8, 116u8],
    }
}

/// The header text of a column.
pub open spec fn column_title(c: Column) -> Seq<u8> {
    match c {
        // "id"
        Column::Id => seq![105u8, 100u8],
        // "post_type"
        Column::PostType => seq![112u8, 111u8, 115u8, 116u8, 95u8, 116u8, 121u8, 112u8, 101u8],
        // "accepted_answer_id"
        Column::AcceptedAnswerId => seq![97u8, 99u8, 99u8, 101u8, 112u8, 116u8, 101u8, 100u8, 95u8, 97u8, 110u8, 115u8, 119u8, 101u8, 114u8, 95u8, 105u8, 100u8],
        // "parent_id"
        Column::ParentId => seq![112u8, 97u8, 114u8, 101u8, 110u8, 116u8, 95u8, 105u8, 100u8],
        // "creation_date"
        Column::CreationDate => seq![99u8, 114u8, 101u8, 97u8, 116u8, 105u8, 111u8, 110u8, 95u8, 100u8, 97u8, 116u8, 101u8],
        // "score"
        Column::Score => seq![115u8, 99u8, 111u8, 114u8, 101u8],
        // "view_count"
        Column::ViewCount => seq![118u8, 105u8, 101u8, 119u8, 95u8, 99u8, 111u8, 117u8, 110u8, 116u8],
        // "owner_user_id"
        Column::OwnerUserId => seq![111u8, 119u8, 110u8, 101u8, 114u8, 95u8, 117u8, 115u8, 101u8, 114u8, 95u8, 105u8, 100u8],
        // "title"
        Column::Title => seq![116u8, 105u8, 116u8, 108u8, 101u8],
        // "tags"
        Column::Tags => seq![116u8, 97u8, 103u8, 115u8],
        // "answer_count"
        Column::AnswerCount => seq![97u8, 110u8, 115u8, 119u8, 101u8, 114u8, 95u8, 99u8, 111u8, 117u8, 110u8, 116u8],
        // "comment_count"
        Column::CommentCount => seq![99u8, 111u8, 109u8, 109u8, 101u8, 110u8, 116u8, 95u8, 99u8, 111u8, 117u8, 110u8, 116u8],
    }
}

/// The text that a kind puts in its `post_type` column.
pub open spec fn label_of(t: PostType) -> Seq<u8> {
    match t {
        // "question"
        PostType::Question => seq![113u8, 117u8, 101u8, 115u8, 116u8, 105u8, 111u8, 110u8],
        // "answer"
        PostType::Answer => seq![97u8, 110u8, 115u8, 119u8, 101u8, 114u8],
    }
}

/// The ordered output columns, shared by every accepted kind.
pub open spec fn columns() -> Seq<Column> {
    seq![
        Column::Id,
        Column::PostType,
        Column::AcceptedAnswerId,
        Column::ParentId,
        Column::CreationDate,
        Column::Score,
        Column::ViewCount,
        Column::OwnerUserId,
        Column::Title,
        Column::Tags,
        Column::AnswerCount,
        Column::CommentCount,
    ]
}

/// The fields of one kind, in column order.
pub open spec fn rules_of(t: PostType) -> Seq<FieldRule> {
    match t {
        PostType::Question => seq![
            FieldRule { column: Column::Id, required: true },
            FieldRule { column: Column::PostType, required: true },
            FieldRule { column: Column::AcceptedAnswerId, required: false },
            FieldRule { column: Column::ParentId, required: false },
            FieldRule { column: Column::CreationDate, required: true },
            FieldRule { column: Column::Score, required: true },
            FieldRule { column: Column::ViewCount, required: false },
            FieldRule { column: Column::OwnerUserId, required: false },
            FieldRule { column: Column::Title, required: false },
            FieldRule { column: Column::Tags, required: false },
            FieldRule { column: Column::AnswerCount, required: false },
            FieldRule { column: Column::CommentCount, required: false },
        ],
        PostType::Answer => seq![
            FieldRule { column: Column::Id, required: true },
            FieldRule { column: Column::PostType, required: true },
            FieldRule { column: Column::AcceptedAnswerId, required: false },
            FieldRule { column: Column::ParentId, required: false },
            FieldRule { column: Column::CreationDate, required: true },
            FieldRule { column: Column::Score, required: true },
            FieldRule { column: Column::ViewCount, required: false },
            FieldRule { column: Column::OwnerUserId, required: false },
            FieldRule { column: Column::Title, required: false },
            FieldRule { column: Column::Tags, required: false },
            FieldRule { column: Column::AnswerCount, required: false },
            FieldRule { column: Column::CommentCount, required: false },
        ],
    }
}

/// Selects the kind of a discriminant value, or `None` to drop the record.
pub fn accepted_kind(d: u64) -> (r: Option<PostType>)
    ensures
        r == post_type_of(d),
{
    if d == QUESTION_ID {
        Some(PostType::Question)
    } else if d == ANSWER_ID {
        Some(PostType::Answer)
    } else {
        None
    }
}

pub fn kind_of(c: Column) -> (r: Kind)
    ensures
        r == column_kind(c),
{
    match c {
        Column::Id => Kind::Unsigned,
        Column::PostType => Kind::Label,
        Column::AcceptedAnswerId => Kind::Unsigned,
        Column::ParentId => Kind::Unsigned,
        Column::CreationDate => Kind::Text,
        Column::Score => Kind::Signed,
        Column::ViewCount => Kind::Unsigned,
        Column::OwnerUserId => Kind::Unsigned,
        Column::Title => Kind::Text,
        Column::Tags => Kind::Text,
        Column::AnswerCount => Kind::Unsigned,
        Column::CommentCount => Kind::Unsigned,
    }
}

/// The attribute name of a column, as bytes.
pub fn attr_key(c: Column) -> (r: Vec<u8>)
    ensures
        r@ == attr_name(c),
{
    let v: Vec<u8> = match c {
        // "Id"
        Column::Id => vec![73u8, 100u8],
        // "PostTypeId"
        Column::PostType => vec![80u8, 111u8, 115u8, 116u8, 84u8, 121u8, 112u8, 101u8, 73u8, 100u8],
        // "AcceptedAnswerId"
        Column::AcceptedAnswerId => vec![65u8, 99u8, 99u8, 101u8, 112u8, 116u8, 101u8, 100u8, 65u8, 110u8, 115u8, 119u8, 101u8, 114u8, 73u8, 100u8],
        // "ParentId"
        Column::ParentId => vec![80u8, 97u8, 114u8, 101u8, 110u8, 116u8, 73u8, 100u8],
        // "CreationDate"
        Column::CreationDate => vec![67u8, 114u8, 101u8, 97u8, 116u8, 105u8, 111u8, 110u8, 68u8, 97u8, 116u8, 101u8],
        // "Score"
        Column::Score => vec![83u8, 99u8, 111u8, 114u8, 101u8],
        // "ViewCount"
        Column::ViewCount => vec![86u8, 105u8, 101u8, 119u8, 67u8, 111u8, 117u8, 110u8, 116u8],
        // "OwnerUserId"
        Column::OwnerUserId => vec![79u8, 119u8, 110u8, 101u8, 114u8, 85u8, 115u8, 101u8, 114u8, 73u8, 100u8],
        // "Title"
        Column::Title => vec![84u8, 105u8, 116u8, 108u8, 101u8],
        // "Tags"
        Column::Tags => vec![84u8, 97u8, 103u8, 115u8],
        // "AnswerCount"
        Column::AnswerCount => vec![65u8, 110u8, 115u8, 119u8, 101u8, 114u8, 67u8, 111u8, 117u8, 110u8, 116u8],
        // "CommentCount"
        Column::CommentCount => vec![67u8, 111u8, 109u8, 109u8, 101u8, 110u8, 116u8, 67u8, 111u8, 117u8, 110u8, 116u8],
    };
    assert(v@ =~= attr_name(c));
    v
}

/// The header text of a column, as bytes.
pub fn title(c: Column) -> (r: Vec<u8>)
    ensures
        r@ == column_title(c),
{
    let v: Vec<u8> = match c {
        // "id"
        Column::Id => vec![105u8, 100u8],
        // "post_type"
        Column::PostType => vec![112u8, 111u8, 115u8, 116u8, 95u8, 116u8, 121u8, 112u8, 101u8],
        // "accepted_answer_id"
        Column::AcceptedAnswerId => vec![97u8, 99u8, 99u8, 101u8, 112u8, 116u8, 101u8, 100u8, 95u8, 97u8, 110u8, 115u8, 119u8, 101u8, 114u8, 95u8, 105u8, 100u8],
        // "parent_id"
        Column::ParentId => vec![112u8, 97u8, 114u8, 101u8, 110u8, 116u8, 95u8, 105u8, 100u8],
        // "creation_date"
        Column::CreationDate => vec![99u8, 114u8, 101u8, 97u8, 116u8, 105u8, 111u8, 110u8, 95u8, 100u8, 97u8, 116u8, 101u8],
        // "score"
        Column::Score => vec![115u8, 99u8, 111u8, 114u8, 101u8],
        // "view_count"
        Column::ViewCount => vec![118u8, 105u8, 101u8, 119u8, 95u8, 99u8, 111u8, 117u8, 110u8, 116u8],
        // "owner_user_id"
        Column::OwnerUserId => vec![111u8, 119u8, 110u8, 101u8, 114u8, 95u8, 117u8, 115u8, 101u8, 114u8, 95u8, 105u8, 100u8],
        // "title"
        Column::Title => vec![116u8, 105u8, 116u8, 108u8, 101u8],
        // "tags"
        Column::Tags => vec![116u8, 97u8, 103u8, 115u8],
        // "answer_count"
        Column::AnswerCount => vec![97u8, 110u8, 115u8, 119u8, 101u8, 114u8, 95u8, 99u8, 111u8, 117u8, 110u8, 116u8],
        // "comment_count"
        Column::CommentCount => vec![99u8, 111u8, 109u8, 109u8, 101u8, 110u8, 116u8, 95u8, 99u8, 111u8, 117u8, 110u8, 116u8],
    };
    assert(v@ =~= column_title(c));
    v
}

/// The `post_type` text of a kind, as bytes.
pub fn label(t: PostType) -> (r: Vec<u8>)
    ensures
        r@ == label_of(t),
{
    let v: Vec<u8> = match t {
        // "question"
        PostType::Question => vec![113u8, 117u8, 101u8, 115u8, 116u8, 105u8, 111u8, 110u8],
        // "answer"
        PostType::Answer => vec![97u8, 110u8, 115u8, 119u8, 101u8, 114u8],
    };
    assert(v@ =~= label_of(t));
    v
}

/// The ordered fields of one kind.
pub fn schema(t: PostType) -> (r: Vec<FieldRule>)
    ensures
        r@ == rules_of(t),
{
    let v: Vec<FieldRule> = match t {
        PostType::Question => vec![
            FieldRule { column: Column::Id, required: true },
            FieldRule { column: Column::PostType, required: true },
            FieldRule { column: Column::AcceptedAnswerId, required: false },
            FieldRule { column: Column::ParentId, required: false },
            FieldRule { column: Column::CreationDate, required: true },
            FieldRule { column: Column::Score, required: true },
            FieldRule { column: Column::ViewCount, required: false },
            FieldRule { column: Column::OwnerUserId, required: false },
            FieldRule { column: Column::Title, required: false },
            FieldRule { column: Column::Tags, required: false },
            FieldRule { column: Column::AnswerCount, required: false },
            FieldRule { column: Column::CommentCount, required: false },
        ],
        PostType::Answer => vec![
            FieldRule { column: Column::Id, required: true },
            FieldRule { column: Column::PostType, required: true },
            FieldRule { column: Column::AcceptedAnswerId, required: false },
            FieldRule { column: Column::ParentId, required: false },
            FieldRule { column: Column::CreationDate, required: true },
            FieldRule { column: Column::Score, required: true },
            FieldRule { column: Column::ViewCount, required: false },
            FieldRule { column: Column::OwnerUserId, required: false },
            FieldRule { column: Column::Title, required: false },
            FieldRule { column: Column::Tags, required: false },
            FieldRule { column: Column::AnswerCount, required: false },
            FieldRule { column: Column::CommentCount, required: false },
        ],
    };
    assert(v@ =~= rules_of(t));
    v
}

/// The ordered output columns.
pub fn column_list() -> (r: Vec<Column>)
    ensures
        r@ == columns(),
{
    let v: Vec<Column> = vec![
        Column::Id,
        Column::PostType,
        Column::AcceptedAnswerId,
        Column::ParentId,
        Column::CreationDate,
        Column::Score,
        Column::ViewCount,
        Column::OwnerUserId,
        Column::Title,
        Column::Tags,
        Column::AnswerCount,
        Column::CommentCount,
    ];
    assert(v@ =~= columns());
    v
}

/// Every kind lists the shared columns, in order.
pub proof fn lemma_rules_follow_columns(t: PostType)
    ensures
        rules_of(t).len() == columns().len(),
        forall|i: int| 0 <= i < columns().len() ==> #[trigger] rules_of(t)[i].column == columns()[i],
{
}

} // verus!
