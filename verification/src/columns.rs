//! The columns of the object table and their widths.

use vstd::prelude::*;

verus! {

pub const OBJECT_NAME_WIDTH: i32 = 244;
pub const OBJECT_IMAGE_WIDTH: i32 = 220;
pub const OBJECT_NAMESPACE_WIDTH: i32 = 132;
pub const OBJECT_STATUS_WIDTH: i32 = 64;
pub const OBJECT_METRIC_WIDTH: i32 = 64;
pub const OBJECT_API_WIDTH: i32 = 96;
pub const OBJECT_AGE_WIDTH: i32 = 56;
pub const OBJECT_COLUMN_MIN_WIDTH: i32 = 48;
pub const OBJECT_NAME_MIN_WIDTH: i32 = 160;

/// A data column of the object table (the name column is always shown).
#[derive(Debug, Clone, Copy, PartialEq, Eq, Structural)]
pub enum ObjectColumn {
    Image,
    Namespace,
    Target,
    Selector,
    IngressClass,
    Status,
    Cpu,
    Memory,
    Api,
    Age,
}

/// Any column of the object table.
#[derive(Debug, Clone, Copy, PartialEq, Eq, Structural)]
pub enum ObjectTableColumn {
    Name,
    Data(ObjectColumn),
}

/// Every data column, in display order.
pub open spec fn all_columns() -> Seq<ObjectColumn> {
    seq![
        ObjectColumn::Image,
        ObjectColumn::Namespace,
        ObjectColumn::Target,
        ObjectColumn::Selector,
        ObjectColumn::IngressClass,
        ObjectColumn::Status,
        ObjectColumn::Cpu,
        ObjectColumn::Memory,
        ObjectColumn::Api,
        ObjectColumn::Age,
    ]
}

/// The place of a column in display order.
pub open spec fn column_index(c: ObjectColumn) -> int {
    match c {
        ObjectColumn::Image => 0,
        ObjectColumn::Namespace => 1,
        ObjectColumn::Target => 2,
        ObjectColumn::Selector => 3,
        ObjectColumn::IngressClass => 4,
        ObjectColumn::Status => 5,
        ObjectColumn::Cpu => 6,
        ObjectColumn::Memory => 7,
        ObjectColumn::Api => 8,
        ObjectColumn::Age => 9,
    }
}

pub proof fn lemma_all_columns()
    ensures
        all_columns().len() == 10,
        forall|c: ObjectColumn| all_columns()[#[trigger] column_index(c)] == c,
        forall|i: int| 0 <= i < 10 ==> column_index(#[trigger] all_columns()[i]) == i,
        forall|c: ObjectColumn| 0 <= #[trigger] column_index(c) < 10,
{
}

/// The width a column has until the user resizes it.
pub open spec fn default_column_width(c: ObjectColumn) -> int {
    match c {
        ObjectColumn::Image => OBJECT_IMAGE_WIDTH as int,
        ObjectColumn::Namespace => OBJECT_NAMESPACE_WIDTH as int,
        ObjectColumn::Target => 156,
        ObjectColumn::Selector => 180,
        ObjectColumn::IngressClass => 144,
        ObjectColumn::Status => OBJECT_STATUS_WIDTH as int,
        ObjectColumn::Cpu | ObjectColumn::Memory => OBJECT_METRIC_WIDTH as int,
        ObjectColumn::Api => OBJECT_API_WIDTH as int,
        ObjectColumn::Age => OBJECT_AGE_WIDTH as int,
    }
}

/// The (untranslated) heading of a column.
pub open spec fn column_label(c: ObjectColumn) -> Seq<char> {
    match c {
        ObjectColumn::Image => "Image"@,
        ObjectColumn::Namespace => "Namespace"@,
        ObjectColumn::Target => "Target"@,
        ObjectColumn::Selector => "Selector"@,
        ObjectColumn::IngressClass => "Ingress Class"@,
        ObjectColumn::Status => "Status"@,
        ObjectColumn::Cpu => "CPU"@,
        ObjectColumn::Memory => "Memory"@,
        ObjectColumn::Api => "API"@,
        ObjectColumn::Age => "Age"@,
    }
}

impl ObjectColumn {
    /// The heading of the column, as the message that the interface translates.
    pub fn label(self) -> (r: &'static str)
        ensures
            r@ == column_label(self),
    {
        match self {
            ObjectColumn::Image => "Image",
            ObjectColumn::Namespace => "Namespace",
            ObjectColumn::Target => "Target",
            ObjectColumn::Selector => "Selector",
            ObjectColumn::IngressClass => "Ingress Class",
            ObjectColumn::Status => "Status",
            ObjectColumn::Cpu => "CPU",
            ObjectColumn::Memory => "Memory",
            ObjectColumn::Api => "API",
            ObjectColumn::Age => "Age",
        }
    }

    /// The width the column has until the user resizes it.
    pub fn default_width(self) -> (r: i32)
        ensures
            r == default_column_width(self),
    {
        match self {
            ObjectColumn::Image => OBJECT_IMAGE_WIDTH,
            ObjectColumn::Namespace => OBJECT_NAMESPACE_WIDTH,
            ObjectColumn::Target => 156,
            ObjectColumn::Selector => 180,
            ObjectColumn::IngressClass => 144,
            ObjectColumn::Status => OBJECT_STATUS_WIDTH,
            ObjectColumn::Cpu | ObjectColumn::Memory => OBJECT_METRIC_WIDTH,
            ObjectColumn::Api => OBJECT_API_WIDTH,
            ObjectColumn::Age => OBJECT_AGE_WIDTH,
        }
    }

    /// The place of the column in display order.
    pub fn position(self) -> (r: usize)
        ensures
            r == column_index(self),
    {
        match self {
            ObjectColumn::Image => 0,
            ObjectColumn::Namespace => 1,
            ObjectColumn::Target => 2,
            ObjectColumn::Selector => 3,
            ObjectColumn::IngressClass => 4,
            ObjectColumn::Status => 5,
            ObjectColumn::Cpu => 6,
            ObjectColumn::Memory => 7,
            ObjectColumn::Api => 8,
            ObjectColumn::Age => 9,
        }
    }

    /// The column at place `i` of the display order.
    pub fn at(i: usize) -> (c: ObjectColumn)
        requires
            i < 10,
        ensures
            c == all_columns()[i as int],
    {
        match i {
            0 => ObjectColumn::Image,
            1 => ObjectColumn::Namespace,
            2 => ObjectColumn::Target,
            3 => ObjectColumn::Selector,
            4 => ObjectColumn::IngressClass,
            5 => ObjectColumn::Status,
            6 => ObjectColumn::Cpu,
            7 => ObjectColumn::Memory,
            8 => ObjectColumn::Api,
            _ => ObjectColumn::Age,
        }
    }
}

/// Every data column, in display order: the columns shown by default.
pub fn default_object_columns() -> (r: Vec<ObjectColumn>)
    ensures
        r@ == all_columns(),
{
    let r = vec![
        ObjectColumn::Image,
        ObjectColumn::Namespace,
        ObjectColumn::Target,
        ObjectColumn::Selector,
        ObjectColumn::IngressClass,
        ObjectColumn::Status,
        ObjectColumn::Cpu,
        ObjectColumn::Memory,
        ObjectColumn::Api,
        ObjectColumn::Age,
    ];
    assert(r@ =~= all_columns());
    r
}

/// The smallest width a table column may be resized to.
pub open spec fn min_table_column_width(column: ObjectTableColumn) -> int {
    match column {
        ObjectTableColumn::Name => OBJECT_NAME_MIN_WIDTH as int,
        ObjectTableColumn::Data(_) => OBJECT_COLUMN_MIN_WIDTH as int,
    }
}

/// `width`, raised to the smallest width `column` may have.
pub fn clamp_table_column_width(column: ObjectTableColumn, width: i32) -> (r: i32)
    ensures
        r == if width < min_table_column_width(column) { min_table_column_width(column) } else { width as int },
{
    let min = match column {
        ObjectTableColumn::Name => OBJECT_NAME_MIN_WIDTH,
        ObjectTableColumn::Data(_) => OBJECT_COLUMN_MIN_WIDTH,
    };
    if width < min {
        min
    } else {
        width
    }
}

} // verus!
