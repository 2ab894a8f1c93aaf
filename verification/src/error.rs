//! What can go wrong, and the text that reports it.

use vstd::prelude::*;

verus! {

/// The statement shapes of the command language.
#[derive(Clone, Copy, Debug, PartialEq, Eq, Structural)]
pub enum Shape {
    CreateTable,
    Insert,
    AlterAdd,
    AlterDrop,
    DropTable,
    Select,
}

/// The families that the errors fall into.
#[derive(Clone, Copy, Debug, PartialEq, Eq, Structural)]
pub enum ErrorKind {
    /// The command text is malformed or incomplete.
    Parse,
    /// A table or a column is unknown, or a row does not fit its table.
    Schema,
    /// A foreign-key value is absent from the column that it refers to.
    Integrity,
    /// `begin` while a transaction is open; `commit`, `rollback` or a
    /// mutating statement while none is.
    TransactionState,
    /// Compressed or serialized data could not be written or read back.
    Io,
    /// Encryption or decryption failed.
    Crypto,
    /// A database name is missing from the registry, or is taken.
    NotFound,
}

/// An error of the engine. No operation that reports one has changed any table.
#[derive(Debug, PartialEq, Eq)]
pub enum EngineError {
    /// The command holds no token.
    EmptyCommand,
    /// The command starts with no known statement.
    Unsupported,
    /// The command starts as the given statement and does not go on as one.
    Syntax(Shape),
    /// `ALTER TABLE` with an action that is neither `ADD` nor `DROP`.
    InvalidAlterAction,
    /// A mutating statement outside a transaction.
    TransactionRequired,
    /// `begin` inside a transaction.
    TransactionActive,
    /// `commit` outside a transaction.
    NothingToCommit,
    /// `rollback` outside a transaction.
    NothingToRollback,
    /// No table of this name.
    TableNotFound(String),
    /// The table that was selected from has no column of this name.
    ColumnNotFound(String),
    /// The table that was to lose a column has none of this name.
    ColumnNotInTable { column: String, table: String },
    /// A row with more or fewer values than the table has columns.
    ValueCount { table: String },
    /// `value` is absent from the column that `column` of `table` refers to.
    ForeignKey { value: String, column: String, table: String },
    /// The cipher refused to encrypt.
    Encryption,
    /// The blob is too short, was made with another key, or was changed.
    Decryption,
    /// The compressor did not take the data; with the cause.
    BackupWrite(String),
    /// The compressor did not finish its stream; with the cause.
    Compression(String),
    /// The data is no gzip stream, or what it holds is no UTF-8; with the cause.
    Decompression(String),
    /// The data is no serialized table mapping.
    Deserialization,
    /// No database of this name in the registry.
    DatabaseNotFound,
    /// A database of this name is in the registry already.
    AlreadyConnected,
}

/// What an [`EngineError`] means in contracts.
pub enum ErrorView {
    EmptyCommand,
    Unsupported,
    Syntax(Shape),
    InvalidAlterAction,
    TransactionRequired,
    TransactionActive,
    NothingToCommit,
    NothingToRollback,
    TableNotFound(Seq<char>),
    ColumnNotFound(Seq<char>),
    ColumnNotInTable { column: Seq<char>, table: Seq<char> },
    ValueCount { table: Seq<char> },
    ForeignKey { value: Seq<char>, column: Seq<char>, table: Seq<char> },
    Encryption,
    Decryption,
    BackupWrite(Seq<char>),
    Compression(Seq<char>),
    Decompression(Seq<char>),
    Deserialization,
    DatabaseNotFound,
    AlreadyConnected,
}

impl DeepView for EngineError {
    type V = ErrorView;

    open spec fn deep_view(&self) -> ErrorView {
        match self {
            EngineError::EmptyCommand => ErrorView::EmptyCommand,
            EngineError::Unsupported => ErrorView::Unsupported,
            EngineError::Syntax(shape) => ErrorView::Syntax(*shape),
            EngineError::InvalidAlterAction => ErrorView::InvalidAlterAction,
            EngineError::TransactionRequired => ErrorView::TransactionRequired,
            EngineError::TransactionActive => ErrorView::TransactionActive,
            EngineError::NothingToCommit => ErrorView::NothingToCommit,
            EngineError::NothingToRollback => ErrorView::NothingToRollback,
            EngineError::TableNotFound(table) => ErrorView::TableNotFound(table@),
            EngineError::ColumnNotFound(column) => ErrorView::ColumnNotFound(column@),
            EngineError::ColumnNotInTable { column, table } => ErrorView::ColumnNotInTable {
                column: column@,
                table: table@,
            },
            EngineError::ValueCount { table } => ErrorView::ValueCount { table: table@ },
            EngineError::ForeignKey { value, column, table } => ErrorView::ForeignKey {
                value: value@,
                column: column@,
                table: table@,
            },
            EngineError::Encryption => ErrorView::Encryption,
            EngineError::Decryption => ErrorView::Decryption,
            EngineError::BackupWrite(cause) => ErrorView::BackupWrite(cause@),
            EngineError::Compression(cause) => ErrorView::Compression(cause@),
            EngineError::Decompression(cause) => ErrorView::Decompression(cause@),
            EngineError::Deserialization => ErrorView::Deserialization,
            EngineError::DatabaseNotFound => ErrorView::DatabaseNotFound,
            EngineError::AlreadyConnected => ErrorView::AlreadyConnected,
        }
    }
}

impl View for EngineError {
    type V = ErrorView;

    open spec fn view(&self) -> ErrorView {
        self.deep_view()
    }
}

/// The line that tells how a statement of `shape` is written.
pub open spec fn usage(shape: Shape) -> Seq<char> {
    match shape {
        Shape::CreateTable => "Sintaxe inválida. Use: CREATE TABLE <nome> (<coluna> [PRIMARY KEY] [FOREIGN KEY REFERENCES <tabela>(<coluna>)], ...)"@,
        Shape::Insert => "Sintaxe inválida. Use: INSERT INTO <nome> VALUES (<valor>, ...)"@,
        Shape::AlterAdd => "Sintaxe inválida. Use: ALTER TABLE <nome> ADD COLUMN <coluna>"@,
        Shape::AlterDrop => "Sintaxe inválida. Use: ALTER TABLE <nome> DROP COLUMN <coluna>"@,
        Shape::DropTable => "Sintaxe inválida. Use: DROP TABLE <nome>"@,
        Shape::Select => "Sintaxe inválida. Use: SELECT * FROM <table_name> WHERE <column> = <value>"@,
    }
}

/// The line that tells how a statement of `shape` is written.
pub fn usage_line(shape: Shape) -> (line: &'static str)
    ensures
        line@ == usage(shape),
{
    match shape {
        Shape::CreateTable => "Sintaxe inválida. Use: CREATE TABLE <nome> (<coluna> [PRIMARY KEY] [FOREIGN KEY REFERENCES <tabela>(<coluna>)], ...)",
        Shape::Insert => "Sintaxe inválida. Use: INSERT INTO <nome> VALUES (<valor>, ...)",
        Shape::AlterAdd => "Sintaxe inválida. Use: ALTER TABLE <nome> ADD COLUMN <coluna>",
        Shape::AlterDrop => "Sintaxe inválida. Use: ALTER TABLE <nome> DROP COLUMN <coluna>",
        Shape::DropTable => "Sintaxe inválida. Use: DROP TABLE <nome>",
        Shape::Select => "Sintaxe inválida. Use: SELECT * FROM <table_name> WHERE <column> = <value>",
    }
}

/// The cause that is given where text is no table mapping.
pub open spec fn no_mapping() -> Seq<char> {
    "o texto não é um mapeamento de tabelas"@
}

impl ErrorView {
    /// The family of the error.
    pub open spec fn kind(self) -> ErrorKind {
        match self {
            ErrorView::EmptyCommand
            | ErrorView::Unsupported
            | ErrorView::Syntax(_)
            | ErrorView::InvalidAlterAction => ErrorKind::Parse,
            ErrorView::TransactionRequired
            | ErrorView::TransactionActive
            | ErrorView::NothingToCommit
            | ErrorView::NothingToRollback => ErrorKind::TransactionState,
            ErrorView::TableNotFound(_)
            | ErrorView::ColumnNotFound(_)
            | ErrorView::ColumnNotInTable { .. }
            | ErrorView::ValueCount { .. } => ErrorKind::Schema,
            ErrorView::ForeignKey { .. } => ErrorKind::Integrity,
            ErrorView::Encryption | ErrorView::Decryption => ErrorKind::Crypto,
            ErrorView::BackupWrite(_)
            | ErrorView::Compression(_)
            | ErrorView::Decompression(_)
            | ErrorView::Deserialization => ErrorKind::Io,
            ErrorView::DatabaseNotFound | ErrorView::AlreadyConnected => ErrorKind::NotFound,
        }
    }

    /// The text that reports the error.
    pub open spec fn text(self) -> Seq<char> {
        match self {
            ErrorView::EmptyCommand => "Comando inválido."@,
            ErrorView::Unsupported => "Comando SQL não suportado."@,
            ErrorView::Syntax(shape) => usage(shape),
            ErrorView::InvalidAlterAction => "Ação inválida. Use ADD COLUMN ou DROP COLUMN."@,
            ErrorView::TransactionRequired => "Erro: Operações devem ser executadas dentro de uma transação."@,
            ErrorView::TransactionActive => "Erro: Já existe uma transação ativa."@,
            ErrorView::NothingToCommit => "Erro: Nenhuma transação ativa para confirmar."@,
            ErrorView::NothingToRollback => "Erro: Nenhuma transação ativa para reverter."@,
            ErrorView::TableNotFound(table) => "Erro: Tabela '"@ + table + "' não existe."@,
            ErrorView::ColumnNotFound(column) => "Erro: Coluna '"@ + column + "' não encontrada."@,
            ErrorView::ColumnNotInTable { column, table } => "Erro: Coluna '"@ + column
                + "' não encontrada na tabela '"@ + table + "'."@,
            ErrorView::ValueCount { table } => "Erro: Número de valores diferente do número de colunas da tabela '"@
                + table + "'."@,
            ErrorView::ForeignKey { value, column, table } => "Erro: Valor '"@ + value
                + "' inválido para a coluna '"@ + column + "' na tabela '"@ + table + "'."@,
            ErrorView::Encryption => "Erro ao criptografar dados."@,
            ErrorView::Decryption => "Erro ao descriptografar dados."@,
            ErrorView::BackupWrite(cause) => "Erro ao escrever backup: "@ + cause,
            ErrorView::Compression(cause) => "Erro ao compactar backup: "@ + cause,
            ErrorView::Decompression(cause) => "Erro ao descompactar backup: "@ + cause,
            ErrorView::Deserialization => "Erro ao desserializar dados: "@ + no_mapping(),
            ErrorView::DatabaseNotFound => "Banco de dados não encontrado."@,
            ErrorView::AlreadyConnected => "Banco de dados já está conectado."@,
        }
    }
}

impl EngineError {
    /// The family of the error.
    pub fn kind(&self) -> (kind: ErrorKind)
        ensures
            kind == self@.kind(),
    {
        match self {
            EngineError::EmptyCommand
            | EngineError::Unsupported
            | EngineError::Syntax(_)
            | EngineError::InvalidAlterAction => ErrorKind::Parse,
            EngineError::TransactionRequired
            | EngineError::TransactionActive
            | EngineError::NothingToCommit
            | EngineError::NothingToRollback => ErrorKind::TransactionState,
            EngineError::TableNotFound(_)
            | EngineError::ColumnNotFound(_)
            | EngineError::ColumnNotInTable { .. }
            | EngineError::ValueCount { .. } => ErrorKind::Schema,
            EngineError::ForeignKey { .. } => ErrorKind::Integrity,
            EngineError::Encryption | EngineError::Decryption => ErrorKind::Crypto,
            EngineError::BackupWrite(_)
            | EngineError::Compression(_)
            | EngineError::Decompression(_)
            | EngineError::Deserialization => ErrorKind::Io,
            EngineError::DatabaseNotFound | EngineError::AlreadyConnected => ErrorKind::NotFound,
        }
    }

    /// The text that reports the error.
    pub fn message(&self) -> (text: String)
        ensures
            text@ == self@.text(),
    {
        match self {
            EngineError::EmptyCommand => String::from_str("Comando inválido."),
            EngineError::Unsupported => String::from_str("Comando SQL não suportado."),
            EngineError::Syntax(shape) => String::from_str(usage_line(*shape)),
            EngineError::InvalidAlterAction => String::from_str(
                "Ação inválida. Use ADD COLUMN ou DROP COLUMN.",
            ),
            EngineError::TransactionRequired => String::from_str(
                "Erro: Operações devem ser executadas dentro de uma transação.",
            ),
            EngineError::TransactionActive => String::from_str("Erro: Já existe uma transação ativa."),
            EngineError::NothingToCommit => String::from_str(
                "Erro: Nenhuma transação ativa para confirmar.",
            ),
            EngineError::NothingToRollback => String::from_str(
                "Erro: Nenhuma transação ativa para reverter.",
            ),
            EngineError::TableNotFound(table) => {
                let mut text = String::from_str("Erro: Tabela '");
                text.append(table.as_str());
                text.append("' não existe.");
                text
            },
            EngineError::ColumnNotFound(column) => {
                let mut text = String::from_str("Erro: Coluna '");
                text.append(column.as_str());
                text.append("' não encontrada.");
                text
            },
            EngineError::ColumnNotInTable { column, table } => {
                let mut text = String::from_str("Erro: Coluna '");
                text.append(column.as_str());
                text.append("' não encontrada na tabela '");
                text.append(table.as_str());
                text.append("'.");
                text
            },
            EngineError::ValueCount { table } => {
                let mut text = String::from_str(
                    "Erro: Número de valores diferente do número de colunas da tabela '",
                );
                text.append(table.as_str());
                text.append("'.");
                text
            },
            EngineError::ForeignKey { value, column, table } => {
                let mut text = String::from_str("Erro: Valor '");
                text.append(value.as_str());
                text.append("' inválido para a coluna '");
                text.append(column.as_str());
                text.append("' na tabela '");
                text.append(table.as_str());
                text.append("'.");
                text
            },
            EngineError::Encryption => String::from_str("Erro ao criptografar dados."),
            EngineError::Decryption => String::from_str("Erro ao descriptografar dados."),
            EngineError::BackupWrite(cause) => {
                let mut text = String::from_str("Erro ao escrever backup: ");
                text.append(cause.as_str());
                text
            },
            EngineError::Compression(cause) => {
                let mut text = String::from_str("Erro ao compactar backup: ");
                text.append(cause.as_str());
                text
            },
            EngineError::Decompression(cause) => {
                let mut text = String::from_str("Erro ao descompactar backup: ");
                text.append(cause.as_str());
                text
            },
            EngineError::Deserialization => {
                let mut text = String::from_str("Erro ao desserializar dados: ");
                text.append("o texto não é um mapeamento de tabelas");
                text
            },
            EngineError::DatabaseNotFound => String::from_str("Banco de dados não encontrado."),
            EngineError::AlreadyConnected => String::from_str("Banco de dados já está conectado."),
        }
    }
}

} // verus!
