//! Keeping messages for good.

use vstd::prelude::*;

use crate::message::Msg;
use crate::message::MsgView;

verus! {

/// Inserts a message, unless it is there already.
pub const INSERT_MESSAGE: &'static str = "INSERT INTO messages
             (local_id, server_id, send_id, receiver_id, msg_type, content_type, content, send_time, platform)
             VALUES
             ($1, $2, $3, $4, $5, $6, $7, $8, $9)
             ON CONFLICT DO NOTHING";

/// A value that is bound to a place in a statement.
#[derive(Debug, PartialEq, Eq)]
pub enum SqlValue {
    Text(String),
    Int(i32),
    BigInt(i64),
    Bytes(Vec<u8>),
}

pub enum SqlValueView {
    Text(Seq<char>),
    Int(i32),
    BigInt(i64),
    Bytes(Seq<u8>),
}

impl View for SqlValue {
    type V = SqlValueView;

    open spec fn view(&self) -> SqlValueView {
        match self {
            SqlValue::Text(text) => SqlValueView::Text(text@),
            SqlValue::Int(number) => SqlValueView::Int(*number),
            SqlValue::BigInt(number) => SqlValueView::BigInt(*number),
            SqlValue::Bytes(bytes) => SqlValueView::Bytes(bytes@),
        }
    }
}

/// What a list of values holds.
pub open spec fn value_views(values: Seq<SqlValue>) -> Seq<SqlValueView> {
    values.map_values(|value: SqlValue| value@)
}

/// The values of a message, in the order of the places of the statement.
pub open spec fn message_values(message: MsgView) -> Seq<SqlValueView> {
    seq![
        SqlValueView::Text(message.client_id),
        SqlValueView::Text(message.server_id),
        SqlValueView::Text(message.sender_id),
        SqlValueView::Text(message.receiver_id),
        SqlValueView::Int(message.msg_type),
        SqlValueView::Int(message.content_type),
        SqlValueView::Bytes(message.content),
        SqlValueView::BigInt(message.send_time),
        SqlValueView::Int(message.platform),
    ]
}

/// A statement and the values that are bound to its places.
#[derive(Debug, PartialEq, Eq)]
pub struct Statement {
    pub sql: String,
    pub values: Vec<SqlValue>,
}

/// The store that keeps messages for good.
#[derive(Debug, PartialEq, Eq)]
pub struct PostgresMessage {}

impl PostgresMessage {
    pub fn new() -> (store: Self)
        ensures
            store == (PostgresMessage {  }),
    {
        PostgresMessage {  }
    }

    /// The statement that keeps a message.
    pub fn save_message(&self, message: Msg) -> (statement: Statement)
        ensures
            statement.sql@ == INSERT_MESSAGE@,
            value_views(statement.values@) == message_values(message@),
            statement.values@.len() == 9,
            statement.values@[0]@ == SqlValueView::Text(message.client_id@),
            statement.values@[1]@ == SqlValueView::Text(message.server_id@),
            statement.values@[2]@ == SqlValueView::Text(message.sender_id@),
            statement.values@[3]@ == SqlValueView::Text(message.receiver_id@),
            statement.values@[4]@ == SqlValueView::Int(message.msg_type),
            statement.values@[5]@ == SqlValueView::Int(message.content_type),
            statement.values@[6]@ == SqlValueView::Bytes(message.content@),
            statement.values@[7]@ == SqlValueView::BigInt(message.send_time),
            statement.values@[8]@ == SqlValueView::Int(message.platform),
    {
        let mut values: Vec<SqlValue> = Vec::new();
        values.push(SqlValue::Text(message.client_id));
        values.push(SqlValue::Text(message.server_id));
        values.push(SqlValue::Text(message.sender_id));
        values.push(SqlValue::Text(message.receiver_id));
        values.push(SqlValue::Int(message.msg_type));
        values.push(SqlValue::Int(message.content_type));
        values.push(SqlValue::Bytes(message.content));
        values.push(SqlValue::BigInt(message.send_time));
        values.push(SqlValue::Int(message.platform));
        assert(value_views(values@) =~= message_values(message@));
        Statement { sql: INSERT_MESSAGE.to_owned(), values }
    }
}

/// The value of a message that belongs into a column of the table.
pub open spec fn column_value(message: MsgView, column: Seq<char>) -> Option<SqlValueView> {
    if column == "local_id"@ {
        Some(SqlValueView::Text(message.client_id))
    } else if column == "server_id"@ {
        Some(SqlValueView::Text(message.server_id))
    } else if column == "send_id"@ {
        Some(SqlValueView::Text(message.sender_id))
    } else if column == "receiver_id"@ {
        Some(SqlValueView::Text(message.receiver_id))
    } else if column == "msg_type"@ {
        Some(SqlValueView::Int(message.msg_type))
    } else if column == "content_type"@ {
        Some(SqlValueView::Int(message.content_type))
    } else if column == "content"@ {
        Some(SqlValueView::Bytes(message.content))
    } else if column == "send_time"@ {
        Some(SqlValueView::BigInt(message.send_time))
    } else if column == "platform"@ {
        Some(SqlValueView::Int(message.platform))
    } else {
        None
    }
}

/// The columns of the table, in the order in which the statement names them.
pub open spec fn columns() -> Seq<Seq<char>> {
    seq![
        "local_id"@,
        "server_id"@,
        "send_id"@,
        "receiver_id"@,
        "msg_type"@,
        "content_type"@,
        "content"@,
        "send_time"@,
        "platform"@,
    ]
}

/// Texts with a comma and a space between each two of them.
pub open spec fn listed(texts: Seq<Seq<char>>) -> Seq<char>
    decreases texts.len(),
{
    if texts.len() == 0 {
        Seq::empty()
    } else if texts.len() == 1 {
        texts[0]
    } else {
        texts[0] + ", "@ + listed(texts.drop_first())
    }
}

proof fn lemma_columns_are_distinct()
    ensures
        columns().no_duplicates(),
{
    reveal_strlit("local_id");
    reveal_strlit("server_id");
    reveal_strlit("send_id");
    reveal_strlit("receiver_id");
    reveal_strlit("msg_type");
    reveal_strlit("content_type");
    reveal_strlit("content");
    reveal_strlit("send_time");
    reveal_strlit("platform");
    let (local, kind, platform) = ("local_id"@, "msg_type"@, "platform"@);
    assert(local[0] == 'l' && kind[0] == 'm' && platform[0] == 'p');
    assert("server_id"@[2] == 'r' && "send_time"@[2] == 'n');
    assert("send_id"@[0] == 's' && "content"@[0] == 'c');
    let names = columns();
    assert(names[0] == local && names[1] == "server_id"@ && names[2] == "send_id"@);
    assert(names[3] == "receiver_id"@ && names[4] == kind && names[5] == "content_type"@);
    assert(names[6] == "content"@ && names[7] == "send_time"@ && names[8] == platform);
    let lens = seq![8nat, 9, 7, 11, 8, 12, 7, 9, 8];
    assert forall|i: int, j: int|
        0 <= i < names.len() && 0 <= j < names.len() && i != j implies names[i] != names[j] by {
        assert(names[i].len() == lens[i] && names[j].len() == lens[j]);
    }
}

/// Each value of a message goes to the column that the statement names in the
/// same place: the statement lists the columns, then as many places for values,
/// and the value at each place is the one that belongs into its column.
pub proof fn law_every_value_goes_to_its_column(message: MsgView)
    ensures
        INSERT_MESSAGE@ == "INSERT INTO messages\n             ("@ + listed(columns()) + ")\n             VALUES\n             ($1, $2, $3, $4, $5, $6, $7, $8, $9)\n             ON CONFLICT DO NOTHING"@,
        message_values(message).len() == columns().len(),
        forall|i: int|
            0 <= i < columns().len() ==> column_value(message, #[trigger] columns()[i]) == Some(
                message_values(message)[i],
            ),
{
    reveal_with_fuel(listed, 10);
    reveal_strlit("INSERT INTO messages\n             (local_id, server_id, send_id, receiver_id, msg_type, content_type, content, send_time, platform)\n             VALUES\n             ($1, $2, $3, $4, $5, $6, $7, $8, $9)\n             ON CONFLICT DO NOTHING");
    reveal_strlit("INSERT INTO messages\n             (");
    reveal_strlit(")\n             VALUES\n             ($1, $2, $3, $4, $5, $6, $7, $8, $9)\n             ON CONFLICT DO NOTHING");
    reveal_strlit(", ");
    reveal_strlit("local_id");
    reveal_strlit("server_id");
    reveal_strlit("send_id");
    reveal_strlit("receiver_id");
    reveal_strlit("msg_type");
    reveal_strlit("content_type");
    reveal_strlit("content");
    reveal_strlit("send_time");
    reveal_strlit("platform");
    assert forall|i: int| 0 <= i < columns().len() implies column_value(
        message,
        #[trigger] columns()[i],
    ) == Some(message_values(message)[i]) by {
        lemma_columns_are_distinct();
        let names = columns();
        assert(names[0] == "local_id"@ && names[1] == "server_id"@ && names[2] == "send_id"@);
        assert(names[3] == "receiver_id"@ && names[4] == "msg_type"@);
        assert(names[5] == "content_type"@ && names[6] == "content"@);
        assert(names[7] == "send_time"@ && names[8] == "platform"@);
    }
    assert(INSERT_MESSAGE@ =~= "INSERT INTO messages\n             ("@ + listed(columns()) + ")\n             VALUES\n             ($1, $2, $3, $4, $5, $6, $7, $8, $9)\n             ON CONFLICT DO NOTHING"@);
}

/// A value shows what it holds, alone and in a list.
pub proof fn law_values_show_what_they_hold(values: Seq<SqlValue>, i: int)
    requires
        0 <= i < values.len(),
    ensures
        value_views(values).len() == values.len(),
        match values[i] {
            SqlValue::Text(text) => value_views(values)[i] == SqlValueView::Text(text@),
            SqlValue::Int(number) => value_views(values)[i] == SqlValueView::Int(number),
            SqlValue::BigInt(number) => value_views(values)[i] == SqlValueView::BigInt(number),
            SqlValue::Bytes(bytes) => value_views(values)[i] == SqlValueView::Bytes(bytes@),
        },
{
}

} // verus!
