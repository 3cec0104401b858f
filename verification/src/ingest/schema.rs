//! Table schemas.

use vstd::prelude::*;
use vstd::string::*;

use crate::text::{chars_of, contains_char, decimal, decimal_text};

verus! {

/// The name of the column that holds the event time.
pub const TIMESTAMP_COLUMN_NAME: &'static str = "@timestamp";

/// The name of the column that holds what no other column holds.
pub const REST_COLUMN_NAME: &'static str = "@rest";

/// The key under which a compiled schema keeps the name of the time column.
pub const TIME_SOURCE_KEY: &'static str = "time_source";

/// The type of a column.
#[derive(Clone, Copy, Debug, PartialEq, Eq, Hash, Structural)]
pub enum ColumnType {
    Utf8,
    Int64,
    Int32,
    Uint64,
    Uint32,
    Float64,
    Float32,
    Bool,
    Timestamp,
}

/// Why a text is not the name of a table.
#[derive(Clone, Copy, Debug, PartialEq, Eq, Structural)]
pub enum TableNameError {
    Empty,
    NullByte,
    BareDot,
    AbsolutePath,
    PathSyntax,
}

impl TableNameError {
    pub open spec fn spec_message(self) -> Seq<char> {
        match self {
            TableNameError::Empty => "table name must not be empty"@,
            TableNameError::NullByte => "table name must not contain null bytes"@,
            TableNameError::BareDot => "table name must not be bare '.'"@,
            TableNameError::AbsolutePath => "table name must not be an absolute path"@,
            TableNameError::PathSyntax => "table name must not contain '/', '\\', or '..'"@,
        }
    }

    pub fn message(self) -> (r: &'static str)
        ensures
            r@ == self.spec_message(),
    {
        match self {
            TableNameError::Empty => "table name must not be empty",
            TableNameError::NullByte => "table name must not contain null bytes",
            TableNameError::BareDot => "table name must not be bare '.'",
            TableNameError::AbsolutePath => "table name must not be an absolute path",
            TableNameError::PathSyntax => "table name must not contain '/', '\\', or '..'",
        }
    }
}

/// Whether two dots follow each other in a text.
pub open spec fn contains_dot_dot(name: Seq<char>) -> bool {
    exists|i: int| 0 <= i < name.len() - 1 && #[trigger] name[i] == '.' && name[i + 1] == '.'
}

/// Why a text is not the name of a table: what could lead out of the directory of tables.
pub open spec fn table_name_fault(name: Seq<char>) -> Option<TableNameError> {
    if name.len() == 0 {
        Some(TableNameError::Empty)
    } else if contains_char(name, '\0') {
        Some(TableNameError::NullByte)
    } else if name == seq!['.'] {
        Some(TableNameError::BareDot)
    } else if name[0] == '/' || name[0] == '\\' {
        Some(TableNameError::AbsolutePath)
    } else if contains_char(name, '/') || contains_char(name, '\\') || contains_dot_dot(name) {
        Some(TableNameError::PathSyntax)
    } else {
        None
    }
}

fn occurs(chars: &Vec<char>, c: char) -> (r: bool)
    ensures
        r == contains_char(chars@, c),
{
    let mut index: usize = 0;
    while index < chars.len()
        invariant
            index <= chars@.len(),
            forall|i: int| 0 <= i < index ==> #[trigger] chars@[i] != c,
        decreases chars@.len() - index,
    {
        if chars[index] == c {
            assert(chars@[index as int] == c);
            return true;
        }
        index = index + 1;
    }
    false
}

fn dot_dot_occurs(chars: &Vec<char>) -> (r: bool)
    ensures
        r == contains_dot_dot(chars@),
{
    let mut index: usize = 1;
    while index < chars.len()
        invariant
            1 <= index,
            index <= chars@.len() || chars@.len() == 0,
            forall|i: int|
                0 <= i < index - 1 && i < chars@.len() - 1 ==> !(#[trigger] chars@[i] == '.'
                    && chars@[i + 1] == '.'),
        decreases chars@.len() - index,
    {
        if chars[index - 1] == '.' && chars[index] == '.' {
            assert(chars@[index - 1] == '.' && chars@[index - 1 + 1] == '.');
            return true;
        }
        index = index + 1;
    }
    false
}

fn check_table_name(name: &str) -> (r: Option<TableNameError>)
    ensures
        r == table_name_fault(name@),
{
    let chars: Vec<char> = chars_of(name);
    if chars.len() == 0 {
        return Some(TableNameError::Empty);
    }
    if occurs(&chars, '\0') {
        return Some(TableNameError::NullByte);
    }
    if chars.len() == 1 && chars[0] == '.' {
        assert(name@ =~= seq!['.']);
        return Some(TableNameError::BareDot);
    }
    if chars[0] == '/' || chars[0] == '\\' {
        return Some(TableNameError::AbsolutePath);
    }
    if occurs(&chars, '/') || occurs(&chars, '\\') || dot_dot_occurs(&chars) {
        return Some(TableNameError::PathSyntax);
    }
    None
}

/// The name of a table. As the name of a directory it stays within its parent.
#[derive(Debug, PartialEq, Eq, Hash)]
pub struct TableName {
    pub(crate) name: String,
}

impl Clone for TableName {
    fn clone(&self) -> (r: Self)
        ensures
            r.spec_name() == self.spec_name(),
    {
        proof {
            use_type_invariant(self);
        }
        TableName { name: self.name.clone() }
    }
}

impl TableName {
    #[verifier::type_invariant]
    pub(crate) open(crate) spec fn valid(self) -> bool {
        table_name_fault(self.name@) is None
    }

    pub open(crate) spec fn spec_name(self) -> Seq<char> {
        self.name@
    }

    pub fn new(name: &str) -> (r: Result<Self, SchemaError>)
        ensures
            match r {
                Ok(table) => table_name_fault(name@) is None && table.spec_name() == name@,
                Err(SchemaError::InvalidTableName(e)) => table_name_fault(name@) == Some(e),
                Err(_) => false,
            },
    {
        match check_table_name(name) {
            Some(e) => Err(SchemaError::InvalidTableName(e)),
            None => Ok(TableName { name: name.to_owned() }),
        }
    }

    pub fn as_str(&self) -> (r: &str)
        ensures
            r@ == self.spec_name(),
            table_name_fault(r@) is None,
    {
        proof {
            use_type_invariant(self);
        }
        self.name.as_str()
    }

    pub fn as_ref(&self) -> (r: &str)
        ensures
            r@ == self.spec_name(),
    {
        self.name.as_str()
    }

    pub fn to_string(&self) -> (r: String)
        ensures
            r@ == self.spec_name(),
    {
        self.name.clone()
    }
}

/// A column of a table.
#[derive(Debug, Clone, PartialEq, Eq)]
pub struct ColumnDescriptor {
    pub name: String,
    pub ty: ColumnType,
    /// Whether this column holds the event time.
    pub time: bool,
}

/// A table and its columns.
#[derive(Debug, Clone, PartialEq, Eq)]
pub struct SchemaConfig {
    pub table: String,
    pub columns: Vec<ColumnDescriptor>,
}

/// Everything that is wrong with a schema.
#[derive(Debug, Clone, PartialEq, Eq)]
pub struct ValidationErrors {
    pub errors: Vec<String>,
}

/// Why a schema is refused.
#[derive(Debug, Clone, PartialEq, Eq)]
pub enum SchemaError {
    Validation(ValidationErrors),
    InvalidTableName(TableNameError),
}

/// The message of a refused table name.
pub open spec fn invalid_table_message(e: TableNameError) -> Seq<char> {
    "invalid table name: "@ + e.spec_message()
}

/// The names of the columns that are marked as holding the event time.
pub open spec fn time_names(columns: Seq<ColumnDescriptor>) -> Seq<Seq<char>>
    decreases columns.len(),
{
    if columns.len() == 0 {
        Seq::empty()
    } else if columns.last().time {
        time_names(columns.drop_last()).push(columns.last().name@)
    } else {
        time_names(columns.drop_last())
    }
}

/// Names with a comma and a space between them.
pub open spec fn joined(names: Seq<Seq<char>>) -> Seq<char>
    decreases names.len(),
{
    if names.len() == 0 {
        Seq::empty()
    } else if names.len() == 1 {
        names[0]
    } else {
        joined(names.drop_last()) + ", "@ + names.last()
    }
}

/// What is wrong with the columns that are marked as holding the event time.
pub open spec fn time_messages(columns: Seq<ColumnDescriptor>) -> Seq<Seq<char>> {
    let names = time_names(columns);
    if names.len() == 0 {
        seq!["no column marked with 'time: true'"@]
    } else if names.len() == 1 {
        Seq::empty()
    } else {
        seq![
            "expected exactly one 'time: true' column, found "@ + decimal_text(names.len()) + ": "@
                + joined(names),
        ]
    }
}

pub open spec fn reserved_message(name: Seq<char>) -> Seq<char> {
    "column '"@ + name + "' starts with '@', which is reserved for system fields"@
}

/// What is wrong with the first letters of names.
pub open spec fn reserved_messages(columns: Seq<ColumnDescriptor>) -> Seq<Seq<char>>
    decreases columns.len(),
{
    if columns.len() == 0 {
        Seq::empty()
    } else {
        let name = columns.last().name@;
        if name.len() > 0 && name[0] == '@' {
            reserved_messages(columns.drop_last()).push(reserved_message(name))
        } else {
            reserved_messages(columns.drop_last())
        }
    }
}

pub open spec fn duplicate_message(name: Seq<char>) -> Seq<char> {
    "duplicate column name '"@ + name + "'"@
}

/// Whether a column has this name.
pub open spec fn has_column(columns: Seq<ColumnDescriptor>, name: Seq<char>) -> bool {
    exists|i: int| 0 <= i < columns.len() && (#[trigger] columns[i]).name@ == name
}

/// What is wrong with names that an earlier column has.
pub open spec fn duplicate_messages(columns: Seq<ColumnDescriptor>) -> Seq<Seq<char>>
    decreases columns.len(),
{
    if columns.len() == 0 {
        Seq::empty()
    } else {
        let name = columns.last().name@;
        if has_column(columns.drop_last(), name) {
            duplicate_messages(columns.drop_last()).push(duplicate_message(name))
        } else {
            duplicate_messages(columns.drop_last())
        }
    }
}

/// Everything that is wrong with a schema, in the order in which it is reported.
pub open spec fn schema_messages(config: SchemaConfig) -> Seq<Seq<char>> {
    (match table_name_fault(config.table@) {
        Some(e) => seq![invalid_table_message(e)],
        None => Seq::empty(),
    }) + time_messages(config.columns@) + reserved_messages(config.columns@) + duplicate_messages(
        config.columns@,
    )
}

/// The views of messages.
pub open spec fn message_views(messages: Seq<String>) -> Seq<Seq<char>> {
    crate::text::text_views(messages)
}

/// Messages as a list, one to a line.
pub open spec fn listed(messages: Seq<Seq<char>>) -> Seq<char>
    decreases messages.len(),
{
    if messages.len() == 0 {
        Seq::empty()
    } else {
        listed(messages.drop_last()) + "  - "@ + messages.last() + "\n"@
    }
}

impl ValidationErrors {
    pub fn to_string(&self) -> (r: String)
        ensures
            r@ == listed(message_views(self.errors@)),
    {
        let ghost views = message_views(self.errors@);
        let mut text: String = String::new();
        let mut index: usize = 0;
        while index < self.errors.len()
            invariant
                index <= self.errors@.len(),
                views == message_views(self.errors@),
                text@ == listed(views.take(index as int)),
            decreases self.errors@.len() - index,
        {
            proof {
                assert(views.take(index + 1).drop_last() =~= views.take(index as int));
            }
            text.append("  - ");
            text.append(self.errors[index].as_str());
            text.append("\n");
            index = index + 1;
        }
        assert(views.take(views.len() as int) =~= views);
        text
    }
}

impl SchemaError {
    pub open spec fn spec_message(self) -> Seq<char> {
        match self {
            SchemaError::Validation(found) => "Schema validation failed:\n"@ + listed(
                message_views(found.errors@),
            ),
            SchemaError::InvalidTableName(e) => invalid_table_message(e),
        }
    }

    pub fn to_string(&self) -> (r: String)
        ensures
            r@ == self.spec_message(),
    {
        match self {
            SchemaError::Validation(found) => "Schema validation failed:\n".to_owned().concat(
                found.to_string().as_str(),
            ),
            SchemaError::InvalidTableName(e) => "invalid table name: ".to_owned().concat(
                e.message(),
            ),
        }
    }
}

fn push_message(errors: &mut Vec<String>, message: String)
    ensures
        message_views(final(errors)@) == message_views(old(errors)@).push(message@),
{
    let ghost before = message_views(errors@);
    errors.push(message);
    assert(message_views(errors@) =~= before.push(message@));
}

fn starts_with_at(name: &str) -> (r: bool)
    ensures
        r == (name@.len() > 0 && name@[0] == '@'),
{
    let chars: Vec<char> = chars_of(name);
    chars.len() > 0 && chars[0] == '@'
}

fn column_occurs(columns: &Vec<ColumnDescriptor>, count: usize, name: &String) -> (r: bool)
    requires
        count <= columns@.len(),
    ensures
        r == has_column(columns@.subrange(0, count as int), name@),
{
    let ghost first = columns@.subrange(0, count as int);
    let mut index: usize = 0;
    while index < count
        invariant
            index <= count <= columns@.len(),
            first == columns@.subrange(0, count as int),
            forall|i: int| 0 <= i < index ==> (#[trigger] first[i]).name@ != name@,
        decreases count - index,
    {
        if columns[index].name == *name {
            assert(first[index as int].name@ == name@);
            return true;
        }
        index = index + 1;
    }
    false
}

impl SchemaConfig {
    /// Tests the table's name, that exactly one column holds the event time, that no name is
    /// reserved, and that no name occurs twice.
    pub fn validate(&self) -> (r: Result<(), SchemaError>)
        ensures
            match r {
                Ok(_) => schema_messages(*self).len() == 0,
                Err(SchemaError::Validation(found)) => message_views(found.errors@)
                    == schema_messages(*self) && schema_messages(*self).len() > 0,
                Err(_) => false,
            },
    {
        let mut errors: Vec<String> = Vec::new();
        let ghost columns = self.columns@;
        assert(message_views(errors@) =~= Seq::empty());
        if let Some(e) = check_table_name(self.table.as_str()) {
            let message: String = "invalid table name: ".to_owned().concat(e.message());
            push_message(&mut errors, message);
        }
        let ghost table_part = message_views(errors@);
        self.check_time_columns(&mut errors);
        let ghost time_part = message_views(errors@);
        let mut index: usize = 0;
        proof {
            assert(columns.subrange(0, 0) =~= Seq::empty());
            assert(time_part + reserved_messages(columns.subrange(0, 0)) =~= time_part);
        }
        while index < self.columns.len()
            invariant
                index <= columns.len(),
                columns == self.columns@,
                message_views(errors@) == time_part + reserved_messages(
                    columns.subrange(0, index as int),
                ),
            decreases columns.len() - index,
        {
            let ghost through = columns.subrange(0, index + 1);
            assert(through.drop_last() =~= columns.subrange(0, index as int));
            assert(through.last() == columns[index as int]);
            if starts_with_at(self.columns[index].name.as_str()) {
                let message: String = "column '".to_owned().concat(
                    self.columns[index].name.as_str(),
                ).concat("' starts with '@', which is reserved for system fields");
                push_message(&mut errors, message);
            }
            assert(message_views(errors@) =~= time_part + reserved_messages(through));
            index = index + 1;
        }
        assert(columns.subrange(0, columns.len() as int) =~= columns);
        let ghost reserved_part = message_views(errors@);
        index = 0;
        proof {
            assert(reserved_part + duplicate_messages(columns.subrange(0, 0)) =~= reserved_part);
        }
        while index < self.columns.len()
            invariant
                index <= columns.len(),
                columns == self.columns@,
                message_views(errors@) == reserved_part + duplicate_messages(
                    columns.subrange(0, index as int),
                ),
            decreases columns.len() - index,
        {
            let ghost through = columns.subrange(0, index + 1);
            assert(through.drop_last() =~= columns.subrange(0, index as int));
            assert(through.last() == columns[index as int]);
            if column_occurs(&self.columns, index, &self.columns[index].name) {
                let message: String = "duplicate column name '".to_owned().concat(
                    self.columns[index].name.as_str(),
                ).concat("'");
                push_message(&mut errors, message);
            }
            assert(message_views(errors@) =~= reserved_part + duplicate_messages(through));
            index = index + 1;
        }
        proof {
            assert(columns.subrange(0, columns.len() as int) =~= columns);
            assert(table_part =~= (match table_name_fault(self.table@) {
                Some(e) => seq![invalid_table_message(e)],
                None => Seq::empty(),
            }));
            assert(message_views(errors@) =~= schema_messages(*self));
        }
        if errors.len() == 0 {
            Ok(())
        } else {
            Err(SchemaError::Validation(ValidationErrors { errors }))
        }
    }

    fn check_time_columns(&self, errors: &mut Vec<String>)
        ensures
            message_views(final(errors)@) == message_views(old(errors)@) + time_messages(
                self.columns@,
            ),
    {
        let ghost columns = self.columns@;
        let ghost before = message_views(errors@);
        let mut count: u64 = 0;
        let mut names: String = String::new();
        let mut index: usize = 0;
        assert(columns.subrange(0, 0) =~= Seq::empty());
        while index < self.columns.len()
            invariant
                index <= columns.len(),
                columns == self.columns@,
                count == time_names(columns.subrange(0, index as int)).len(),
                count <= index,
                names@ == joined(time_names(columns.subrange(0, index as int))),
            decreases columns.len() - index,
        {
            let ghost through = columns.subrange(0, index + 1);
            let ghost earlier = time_names(columns.subrange(0, index as int));
            assert(through.drop_last() =~= columns.subrange(0, index as int));
            assert(through.last() == columns[index as int]);
            if self.columns[index].time {
                proof {
                    assert(time_names(through).drop_last() =~= earlier);
                }
                if count == 0 {
                    names = self.columns[index].name.clone();
                } else {
                    names.append(", ");
                    names.append(self.columns[index].name.as_str());
                }
                count = count + 1;
            }
            index = index + 1;
        }
        assert(columns.subrange(0, columns.len() as int) =~= columns);
        if count == 0 {
            push_message(errors, "no column marked with 'time: true'".to_owned());
        } else if count > 1 {
            let found: String = decimal(count);
            let message: String =
                "expected exactly one 'time: true' column, found ".to_owned().concat(
                found.as_str(),
            ).concat(": ").concat(names.as_str());
            push_message(errors, message);
        }
        assert(message_views(errors@) =~= before + time_messages(columns));
    }

    pub fn table_name(&self) -> (r: Result<TableName, SchemaError>)
        ensures
            match r {
                Ok(table) => table_name_fault(self.table@) is None && table.spec_name()
                    == self.table@,
                Err(SchemaError::InvalidTableName(e)) => table_name_fault(self.table@) == Some(e),
                Err(_) => false,
            },
    {
        TableName::new(self.table.as_str())
    }

    /// The fields of the table: the columns, that of the event time under its own name, and the
    /// column of the rest.
    pub fn compile(&self) -> (r: TableSchema)
        ensures
            r.compiles(*self),
    {
        let mut fields: Vec<TableField> = Vec::new();
        let mut time_source: Option<String> = None;
        let mut index: usize = 0;
        assert(self.columns@.subrange(0, 0) =~= Seq::empty());
        while index < self.columns.len()
            invariant
                index <= self.columns@.len(),
                fields@.len() == index,
                forall|i: int|
                    0 <= i < index ==> (#[trigger] fields@[i]).holds(self.columns@[i]),
                crate::text::optional_view(time_source) == last_time_name(
                    self.columns@.subrange(0, index as int),
                ),
            decreases self.columns@.len() - index,
        {
            let ghost through = self.columns@.subrange(0, index + 1);
            assert(through.drop_last() =~= self.columns@.subrange(0, index as int));
            assert(through.last() == self.columns@[index as int]);
            let column: &ColumnDescriptor = &self.columns[index];
            if column.time {
                time_source = Some(column.name.clone());
                fields.push(
                    TableField {
                        name: TIMESTAMP_COLUMN_NAME.to_owned(),
                        ty: column.ty,
                        nullable: false,
                    },
                );
            } else {
                fields.push(
                    TableField { name: column.name.clone(), ty: column.ty, nullable: true },
                );
            }
            index = index + 1;
        }
        assert(self.columns@.subrange(0, self.columns@.len() as int) =~= self.columns@);
        fields.push(
            TableField { name: REST_COLUMN_NAME.to_owned(), ty: ColumnType::Utf8, nullable: true },
        );
        TableSchema { fields, time_source }
    }
}

/// The name of the last column that is marked as holding the event time.
pub open spec fn last_time_name(columns: Seq<ColumnDescriptor>) -> Option<Seq<char>>
    decreases columns.len(),
{
    if columns.len() == 0 {
        None
    } else if columns.last().time {
        Some(columns.last().name@)
    } else {
        last_time_name(columns.drop_last())
    }
}

/// A field of a compiled table.
#[derive(Debug, PartialEq, Eq)]
pub struct TableField {
    pub name: String,
    pub ty: ColumnType,
    pub nullable: bool,
}

impl TableField {
    /// Whether this field holds the values of a column.
    pub open spec fn holds(self, column: ColumnDescriptor) -> bool {
        &&& self.ty == column.ty
        &&& self.nullable == !column.time
        &&& self.name@ == if column.time {
            TIMESTAMP_COLUMN_NAME@
        } else {
            column.name@
        }
    }
}

/// A compiled table.
#[derive(Debug, PartialEq, Eq)]
pub struct TableSchema {
    pub fields: Vec<TableField>,
    /// The name under which records hold the event time.
    pub time_source: Option<String>,
}

impl TableSchema {
    /// Whether this is what a schema compiles to.
    pub open spec fn compiles(self, config: SchemaConfig) -> bool {
        &&& self.fields@.len() == config.columns@.len() + 1
        &&& forall|i: int|
            0 <= i < config.columns@.len() ==> (#[trigger] self.fields@[i]).holds(
                config.columns@[i],
            )
        &&& self.fields@.last().name@ == REST_COLUMN_NAME@
        &&& self.fields@.last().ty == ColumnType::Utf8
        &&& self.fields@.last().nullable
        &&& crate::text::optional_view(self.time_source) == last_time_name(config.columns@)
    }
}

impl Clone for TableField {
    fn clone(&self) -> (r: Self)
        ensures
            r == *self,
    {
        TableField { name: self.name.clone(), ty: self.ty, nullable: self.nullable }
    }
}

impl Clone for TableSchema {
    fn clone(&self) -> (r: Self)
        ensures
            r.fields@ == self.fields@,
            r.time_source == self.time_source,
    {
        let mut fields: Vec<TableField> = Vec::new();
        let mut index: usize = 0;
        while index < self.fields.len()
            invariant
                index <= self.fields@.len(),
                fields@ == self.fields@.subrange(0, index as int),
            decreases self.fields@.len() - index,
        {
            fields.push(self.fields[index].clone());
            index = index + 1;
            assert(fields@ =~= self.fields@.subrange(0, index as int));
        }
        assert(fields@ =~= self.fields@);
        TableSchema { fields, time_source: self.time_source.clone() }
    }
}

} // verus!
