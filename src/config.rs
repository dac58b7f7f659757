//! Run-level ordering configuration.
use vstd::prelude::*;
use crate::text::str_eq;

verus! {

/// The key that sibling entries are ordered by.
#[derive(Clone, Copy, Debug, PartialEq, Eq, Structural)]
pub enum SortField {
    Name,
    Date,
    Size,
    Type,
    Ext,
}

/// Ascending or descending order.
#[derive(Clone, Copy, Debug, PartialEq, Eq, Structural)]
pub enum SortDirection {
    Asc,
    Desc,
}

/// The key a flag value names; any other value names `Name`.
pub open spec fn sort_field_of(s: Seq<char>) -> SortField {
    if s == "date"@ {
        SortField::Date
    } else if s == "size"@ {
        SortField::Size
    } else if s == "type"@ {
        SortField::Type
    } else if s == "ext"@ {
        SortField::Ext
    } else {
        SortField::Name
    }
}

/// The direction a flag value names; any value but `desc` names `Asc`.
pub open spec fn sort_direction_of(s: Seq<char>) -> SortDirection {
    if s == "desc"@ {
        SortDirection::Desc
    } else {
        SortDirection::Asc
    }
}

impl SortField {
    /// Reads a sort key from its flag value, falling back to `Name`.
    pub fn from_str(s: &str) -> (r: SortField)
        ensures
            r == sort_field_of(s@),
    {
        if str_eq(s, "date") {
            SortField::Date
        } else if str_eq(s, "size") {
            SortField::Size
        } else if str_eq(s, "type") {
            SortField::Type
        } else if str_eq(s, "ext") {
            SortField::Ext
        } else {
            SortField::Name
        }
    }

    /// Reads a sort key from its flag value; `None` when the value names none.
    pub fn parse(s: &str) -> (r: Option<SortField>)
        ensures
            r is None <==> (s@ != "name"@ && s@ != "date"@ && s@ != "size"@ && s@ != "type"@
                && s@ != "ext"@),
            r is Some ==> r->0 == sort_field_of(s@),
    {
        proof {
            reveal_strlit("name");
            reveal_strlit("date");
            reveal_strlit("size");
            reveal_strlit("type");
            reveal_strlit("ext");
            assert("name"@[0] != "date"@[0] && "name"@[0] != "size"@[0]);
            assert("name"@[0] != "type"@[0] && "name"@[0] != "ext"@[0]);
        }
        if str_eq(s, "name") {
            Some(SortField::Name)
        } else if str_eq(s, "date") || str_eq(s, "size") || str_eq(s, "type") || str_eq(s, "ext") {
            Some(SortField::from_str(s))
        } else {
            None
        }
    }
}

impl SortDirection {
    /// Reads a direction from its flag value, falling back to `Asc`.
    pub fn from_str(s: &str) -> (r: SortDirection)
        ensures
            r == sort_direction_of(s@),
    {
        if str_eq(s, "desc") {
            SortDirection::Desc
        } else {
            SortDirection::Asc
        }
    }
}

} // verus!
