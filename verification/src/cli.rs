//! The command-line client: which request each command sends, what it
//! reads first, and what is shown of the reply. Sending, reading files and
//! printing are left to the caller.

use vstd::prelude::*;
use crate::schema::{decimal_digits, u64_to_decimal};

verus! {

/// Address of the server when none is given.
pub const DEFAULT_HOST: &'static str = "https://localhost:8443";

/// Number of components of the vector a new node gets when none is given;
/// each is one half.
pub const DEFAULT_VECTOR_DIMENSION: usize = 384;

/// Arguments of the client.
pub struct Cli {
    /// Address of the server.
    pub host: String,
    /// Authentication token.
    pub token: Option<String>,
    pub command: Commands,
}

/// Commands of the client.
pub enum Commands {
    /// Run a query.
    Query { query: String },
    /// Create a backup.
    Backup { description: Option<String> },
    /// Restore a backup.
    Restore { backup_id: String },
    /// List the backups.
    ListBackups,
    /// Check the server's health.
    Health,
    /// Fetch the server's metrics.
    Metrics,
    /// Work with nodes.
    Nodes { command: NodeCommands },
    /// Work with transactions.
    Transaction { command: TransactionCommands },
}

/// Node commands.
pub enum NodeCommands {
    /// Fetch a node.
    Get { id: u64 },
    /// Create a node; its vector is given inline or in a file, its
    /// properties as JSON inline or in a file.
    Create { id: u64, vector: Option<String>, vector_file: Option<String>, properties: Option<String> },
    /// Delete a node.
    Delete { id: u64 },
}

/// Transaction commands.
pub enum TransactionCommands {
    /// Begin a transaction, from a file of operations where given.
    Begin { file: Option<String> },
    Commit,
    Rollback,
}

/// Abstract value of a [`Commands`].
pub enum CommandView {
    Query(Seq<char>),
    Backup(Option<Seq<char>>),
    Restore(Seq<char>),
    ListBackups,
    Health,
    Metrics,
    GetNode(u64),
    CreateNode(u64, Option<Seq<char>>, Option<Seq<char>>, Option<Seq<char>>),
    DeleteNode(u64),
    Begin(Option<Seq<char>>),
    Commit,
    Rollback,
}

/// The characters of an optional string.
pub open spec fn opt_chars(o: Option<String>) -> Option<Seq<char>> {
    match o {
        Some(s) => Some(s@),
        None => None,
    }
}

impl View for Commands {
    type V = CommandView;

    open spec fn view(&self) -> CommandView {
        match self {
            Commands::Query { query } => CommandView::Query(query@),
            Commands::Backup { description } => CommandView::Backup(opt_chars(*description)),
            Commands::Restore { backup_id } => CommandView::Restore(backup_id@),
            Commands::ListBackups => CommandView::ListBackups,
            Commands::Health => CommandView::Health,
            Commands::Metrics => CommandView::Metrics,
            Commands::Nodes { command } => match command {
                NodeCommands::Get { id } => CommandView::GetNode(*id),
                NodeCommands::Create { id, vector, vector_file, properties } =>
                    CommandView::CreateNode(*id, opt_chars(*vector), opt_chars(*vector_file), opt_chars(*properties)),
                NodeCommands::Delete { id } => CommandView::DeleteNode(*id),
            },
            Commands::Transaction { command } => match command {
                TransactionCommands::Begin { file } => CommandView::Begin(opt_chars(*file)),
                TransactionCommands::Commit => CommandView::Commit,
                TransactionCommands::Rollback => CommandView::Rollback,
            },
        }
    }
}

/// HTTP methods the client uses.
#[derive(Debug, Clone, Copy, PartialEq, Eq, Structural)]
pub enum HttpMethod {
    Get,
    Post,
}

/// A request to the server.
pub struct HttpRequest {
    pub method: HttpMethod,
    pub url: String,
    /// Value of the `Authorization` header, where the request has one.
    pub authorization: Option<String>,
    /// Members of a JSON object whose values are strings, sent with
    /// `Content-Type: application/json`, where the request has a body.
    pub json_body: Option<Vec<(String, String)>>,
    /// What is shown before the reply's body when the reply is not a
    /// success.
    pub failure: String,
}

/// Abstract value of an [`HttpRequest`].
pub struct RequestView {
    pub method: HttpMethod,
    pub url: Seq<char>,
    pub authorization: Option<Seq<char>>,
    pub json_body: Option<Seq<(Seq<char>, Seq<char>)>>,
    pub failure: Seq<char>,
}

/// The members of a JSON body as abstract values.
pub open spec fn members_view(m: Seq<(String, String)>) -> Seq<(Seq<char>, Seq<char>)> {
    m.map_values(|p: (String, String)| (p.0@, p.1@))
}

impl View for HttpRequest {
    type V = RequestView;

    open spec fn view(&self) -> RequestView {
        RequestView {
            method: self.method,
            url: self.url@,
            authorization: opt_chars(self.authorization),
            json_body: match self.json_body {
                Some(m) => Some(members_view(m@)),
                None => None,
            },
            failure: self.failure@,
        }
    }
}

/// Where the vector of a new node comes from.
pub enum VectorSource {
    /// A file holding a JSON array.
    File(String),
    /// A JSON array written on the command line.
    Inline(String),
    /// [`DEFAULT_VECTOR_DIMENSION`] components of one half.
    Default,
}

/// Where the properties of a new node come from.
pub enum PropertiesSource {
    /// A file holding a JSON value.
    File(String),
    /// A JSON value written on the command line.
    Inline(String),
    /// The empty JSON object.
    Empty,
}

/// Abstract value of a source: `Some((true, path))` for a file,
/// `Some((false, text))` for inline text, `None` for the default.
pub type SourceView = Option<(bool, Seq<char>)>;

impl View for VectorSource {
    type V = SourceView;

    open spec fn view(&self) -> SourceView {
        match self {
            VectorSource::File(p) => Some((true, p@)),
            VectorSource::Inline(t) => Some((false, t@)),
            VectorSource::Default => None,
        }
    }
}

impl View for PropertiesSource {
    type V = SourceView;

    open spec fn view(&self) -> SourceView {
        match self {
            PropertiesSource::File(p) => Some((true, p@)),
            PropertiesSource::Inline(t) => Some((false, t@)),
            PropertiesSource::Empty => None,
        }
    }
}

/// A line of output, for standard output or standard error.
pub struct OutputLine {
    pub to_stderr: bool,
    pub text: String,
}

/// The lines as abstract values.
pub open spec fn lines_view(ls: Seq<OutputLine>) -> Seq<(bool, Seq<char>)> {
    ls.map_values(|l: OutputLine| (l.to_stderr, l.text@))
}

/// What a command comes to.
pub enum CliPlan {
    /// Send the request and show the reply (see [`report`]).
    Request(HttpRequest),
    /// Read the vector and the properties, then send them to `url` with
    /// `authorization`, in a JSON object with an empty `edges` list, and
    /// show the reply with `failure`.
    CreateNode {
        url: String,
        authorization: String,
        vector: VectorSource,
        properties: PropertiesSource,
        failure: String,
    },
    /// Read `file` where given, then show [`begin_transaction_lines`] of
    /// its content.
    BeginTransaction { file: Option<String> },
    /// Show these lines.
    Print(Vec<OutputLine>),
}

/// Abstract value of a [`CliPlan`].
pub enum PlanView {
    Request(RequestView),
    CreateNode(Seq<char>, Seq<char>, SourceView, SourceView, Seq<char>),
    BeginTransaction(Option<Seq<char>>),
    Print(Seq<(bool, Seq<char>)>),
}

impl View for CliPlan {
    type V = PlanView;

    open spec fn view(&self) -> PlanView {
        match self {
            CliPlan::Request(r) => PlanView::Request(r@),
            CliPlan::CreateNode { url, authorization, vector, properties, failure } =>
                PlanView::CreateNode(url@, authorization@, vector@, properties@, failure@),
            CliPlan::BeginTransaction { file } => PlanView::BeginTransaction(opt_chars(*file)),
            CliPlan::Print(ls) => PlanView::Print(lines_view(ls@)),
        }
    }
}

/// The client: the server's address and the `Authorization` header it
/// sends.
pub struct CliExecutor {
    pub host: String,
    pub auth_header: String,
}

/// The `Authorization` header: `Bearer <token>` for a token given on the
/// command line; else the environment's value as it stands; else the
/// built-in administrator token.
pub open spec fn auth_header_of(token: Option<Seq<char>>, env_token: Option<Seq<char>>) -> Seq<char> {
    match token {
        Some(t) => "Bearer "@ + t,
        None => match env_token {
            Some(v) => v,
            None => "Bearer admin-token-xyz"@,
        },
    }
}

/// A request as an abstract value.
pub open spec fn request(
    method: HttpMethod,
    url: Seq<char>,
    authorization: Option<Seq<char>>,
    json_body: Option<Seq<(Seq<char>, Seq<char>)>>,
    failure: Seq<char>,
) -> PlanView {
    PlanView::Request(RequestView { method, url, authorization, json_body, failure })
}

/// The vector's source: the file where one is named; else inline text
/// where the text starts with `[`, or a file named by the text; else the
/// default.
pub open spec fn vector_source_of(vector: Option<Seq<char>>, vector_file: Option<Seq<char>>) -> SourceView {
    match vector_file {
        Some(p) => Some((true, p)),
        None => match vector {
            Some(v) => if v.len() > 0 && v[0] == '[' { Some((false, v)) } else { Some((true, v)) },
            None => None,
        },
    }
}

/// The properties' source: inline text where it starts with `{`, else a
/// file named by the text; the empty object where none is given.
pub open spec fn properties_source_of(properties: Option<Seq<char>>) -> SourceView {
    match properties {
        Some(p) => if p.len() > 0 && p[0] == '{' { Some((false, p)) } else { Some((true, p)) },
        None => None,
    }
}

/// What `command` comes to for a client of `host` that sends `auth`.
pub open spec fn plan_of(host: Seq<char>, auth: Seq<char>, command: CommandView) -> PlanView {
    match command {
        CommandView::Query(q) => request(HttpMethod::Post, host + "/tql"@, Some(auth),
            Some(seq![("query"@, q)]), "❌ Ошибка выполнения запроса: "@),
        CommandView::Backup(d) => request(HttpMethod::Post, host + "/backup/create"@, Some(auth),
            Some(match d { Some(x) => seq![("description"@, x)], None => Seq::empty() }),
            "❌ Ошибка создания резервной копии: "@),
        CommandView::Restore(id) => request(HttpMethod::Post, host + "/backup/restore"@, Some(auth),
            Some(seq![("backup_id"@, id)]), "❌ Ошибка восстановления из резервной копии: "@),
        CommandView::ListBackups => request(HttpMethod::Get, host + "/backup/list"@, Some(auth), None,
            "❌ Ошибка получения списка резервных копий: "@),
        CommandView::Health => request(HttpMethod::Get, host + "/health"@, None, None,
            "❌ Ошибка проверки состояния: "@),
        CommandView::Metrics => request(HttpMethod::Get, host + "/metrics"@, None, None,
            "❌ Ошибка получения метрик: "@),
        CommandView::GetNode(id) => request(HttpMethod::Get, host + "/nodes/"@ + decimal_digits(id as nat),
            Some(auth), None, "❌ Ошибка получения узла: "@),
        CommandView::CreateNode(id, vector, vector_file, properties) => PlanView::CreateNode(
            host + "/nodes/"@ + decimal_digits(id as nat),
            auth,
            vector_source_of(vector, vector_file),
            properties_source_of(properties),
            "❌ Ошибка создания узла: "@,
        ),
        CommandView::DeleteNode(_) => PlanView::Print(seq![
            (true, "❌ Удаление узлов напрямую не поддерживается через API. Используйте транзакции."@),
        ]),
        CommandView::Begin(file) => PlanView::BeginTransaction(file),
        CommandView::Commit => PlanView::Print(seq![
            (false, "🔄 Выполнение коммита транзакции..."@),
            (false, "✅ Транзакция успешно зафиксирована"@),
        ]),
        CommandView::Rollback => PlanView::Print(seq![
            (false, "🔄 Выполнение отката транзакции..."@),
            (false, "✅ Транзакция успешно откачена"@),
        ]),
    }
}

/// The lines shown when a transaction begins, with the content of its file
/// where one was given.
pub open spec fn begin_lines_of(content: Option<Seq<char>>) -> Seq<(bool, Seq<char>)> {
    let head = match content {
        Some(c) => seq![(false, "📁 Транзакция начата из файла"@), (false, "   Содержимое: "@ + c)],
        None => seq![(false, "📁 Интерактивная транзакция начата"@)],
    };
    head + seq![
        (false, "💡 Используйте команды TQL для выполнения операций в транзакции"@),
        (false, "💡 Завершите транзакцию командой 'transaction commit' или 'transaction rollback'"@),
    ]
}

fn concat(a: &str, b: &str) -> (r: String)
    ensures
        r@ == a@ + b@,
{
    let mut r = a.to_owned();
    r.append(b);
    r
}

fn line(to_stderr: bool, text: &str) -> (l: OutputLine)
    ensures
        l.to_stderr == to_stderr,
        l.text@ == text@,
{
    OutputLine { to_stderr, text: text.to_owned() }
}

fn opt_clone(o: &Option<String>) -> (r: Option<String>)
    ensures
        opt_chars(r) == opt_chars(*o),
{
    match o {
        Some(s) => Some(s.clone()),
        None => None,
    }
}

fn starts_with_char(s: &str, c: char) -> (b: bool)
    ensures
        b == (s@.len() > 0 && s@[0] == c),
{
    s.unicode_len() > 0 && s.get_char(0) == c
}

/// A request with a JSON body of one member.
fn one_member(key: &str, value: String) -> (m: Vec<(String, String)>)
    ensures
        members_view(m@) == seq![(key@, value@)],
{
    let m = vec![(key.to_owned(), value)];
    proof {
        assert(members_view(m@) =~= seq![(key@, m@[0].1@)]);
    }
    m
}

/// Shows a reply: its body on standard output for a success, else
/// `failure` and the body on standard error.
pub fn report(failure: &str, success: bool, body: &str) -> (l: OutputLine)
    ensures
        l.to_stderr == !success,
        l.text@ == if success { body@ } else { failure@ + body@ },
{
    if success {
        line(false, body)
    } else {
        OutputLine { to_stderr: true, text: concat(failure, body) }
    }
}

/// The lines shown when a transaction begins (see [`begin_lines_of`]).
pub fn begin_transaction_lines(content: Option<String>) -> (ls: Vec<OutputLine>)
    ensures
        lines_view(ls@) == begin_lines_of(opt_chars(content)),
{
    let mut ls: Vec<OutputLine> = Vec::new();
    match content {
        Some(c) => {
            ls.push(line(false, "📁 Транзакция начата из файла"));
            ls.push(OutputLine { to_stderr: false, text: concat("   Содержимое: ", c.as_str()) });
        },
        None => {
            ls.push(line(false, "📁 Интерактивная транзакция начата"));
        },
    }
    ls.push(line(false, "💡 Используйте команды TQL для выполнения операций в транзакции"));
    ls.push(line(false, "💡 Завершите транзакцию командой 'transaction commit' или 'transaction rollback'"));
    proof {
        assert(lines_view(ls@) =~= begin_lines_of(opt_chars(content)));
    }
    ls
}

impl CliExecutor {
    /// A client of `host`. Its `Authorization` header is `Bearer <token>`
    /// for a given token, else `env_token` (the value of `TOROIDAL_TOKEN`
    /// in the environment, where set) as it stands, else the built-in
    /// administrator token.
    pub fn new(host: String, token: Option<String>, env_token: Option<String>) -> (c: Self)
        ensures
            c.host@ == host@,
            c.auth_header@ == auth_header_of(opt_chars(token), opt_chars(env_token)),
    {
        let auth_header = match token {
            Some(t) => concat("Bearer ", t.as_str()),
            None => match env_token {
                Some(v) => v,
                None => "Bearer admin-token-xyz".to_owned(),
            },
        };
        CliExecutor { host, auth_header }
    }

    fn url(&self, path: &str) -> (u: String)
        ensures
            u@ == self.host@ + path@,
    {
        concat(self.host.as_str(), path)
    }

    fn node_url(&self, id: u64) -> (u: String)
        ensures
            u@ == self.host@ + "/nodes/"@ + decimal_digits(id as nat),
    {
        let base = self.url("/nodes/");
        let n = u64_to_decimal(id);
        concat(base.as_str(), n.as_str())
    }

    /// What `command` comes to (see [`plan_of`]).
    pub fn plan(&self, command: &Commands) -> (p: CliPlan)
        ensures
            p@ == plan_of(self.host@, self.auth_header@, command@),
    {
        match command {
            Commands::Query { query } => CliPlan::Request(HttpRequest {
                method: HttpMethod::Post,
                url: self.url("/tql"),
                authorization: Some(self.auth_header.clone()),
                json_body: Some(one_member("query", query.clone())),
                failure: "❌ Ошибка выполнения запроса: ".to_owned(),
            }),
            Commands::Backup { description } => {
                let body = match description {
                    Some(d) => one_member("description", d.clone()),
                    None => {
                        let v: Vec<(String, String)> = Vec::new();
                        proof {
                            assert(members_view(v@) =~= Seq::<(Seq<char>, Seq<char>)>::empty());
                        }
                        v
                    },
                };
                CliPlan::Request(HttpRequest {
                    method: HttpMethod::Post,
                    url: self.url("/backup/create"),
                    authorization: Some(self.auth_header.clone()),
                    json_body: Some(body),
                    failure: "❌ Ошибка создания резервной копии: ".to_owned(),
                })
            },
            Commands::Restore { backup_id } => CliPlan::Request(HttpRequest {
                method: HttpMethod::Post,
                url: self.url("/backup/restore"),
                authorization: Some(self.auth_header.clone()),
                json_body: Some(one_member("backup_id", backup_id.clone())),
                failure: "❌ Ошибка восстановления из резервной копии: ".to_owned(),
            }),
            Commands::ListBackups => CliPlan::Request(HttpRequest {
                method: HttpMethod::Get,
                url: self.url("/backup/list"),
                authorization: Some(self.auth_header.clone()),
                json_body: None,
                failure: "❌ Ошибка получения списка резервных копий: ".to_owned(),
            }),
            Commands::Health => CliPlan::Request(HttpRequest {
                method: HttpMethod::Get,
                url: self.url("/health"),
                authorization: None,
                json_body: None,
                failure: "❌ Ошибка проверки состояния: ".to_owned(),
            }),
            Commands::Metrics => CliPlan::Request(HttpRequest {
                method: HttpMethod::Get,
                url: self.url("/metrics"),
                authorization: None,
                json_body: None,
                failure: "❌ Ошибка получения метрик: ".to_owned(),
            }),
            Commands::Nodes { command } => match command {
                NodeCommands::Get { id } => CliPlan::Request(HttpRequest {
                    method: HttpMethod::Get,
                    url: self.node_url(*id),
                    authorization: Some(self.auth_header.clone()),
                    json_body: None,
                    failure: "❌ Ошибка получения узла: ".to_owned(),
                }),
                NodeCommands::Create { id, vector, vector_file, properties } => {
                    let vector = match vector_file {
                        Some(p) => VectorSource::File(p.clone()),
                        None => match vector {
                            Some(v) => if starts_with_char(v.as_str(), '[') {
                                VectorSource::Inline(v.clone())
                            } else {
                                VectorSource::File(v.clone())
                            },
                            None => VectorSource::Default,
                        },
                    };
                    let properties = match properties {
                        Some(p) => if starts_with_char(p.as_str(), '{') {
                            PropertiesSource::Inline(p.clone())
                        } else {
                            PropertiesSource::File(p.clone())
                        },
                        None => PropertiesSource::Empty,
                    };
                    CliPlan::CreateNode {
                        url: self.node_url(*id),
                        authorization: self.auth_header.clone(),
                        vector,
                        properties,
                        failure: "❌ Ошибка создания узла: ".to_owned(),
                    }
                },
                NodeCommands::Delete { .. } => {
                    let ls = vec![line(true, "❌ Удаление узлов напрямую не поддерживается через API. Используйте транзакции.")];
                    proof {
                        assert(lines_view(ls@) =~= seq![(true, "❌ Удаление узлов напрямую не поддерживается через API. Используйте транзакции."@)]);
                    }
                    CliPlan::Print(ls)
                },
            },
            Commands::Transaction { command } => match command {
                TransactionCommands::Begin { file } => CliPlan::BeginTransaction { file: opt_clone(file) },
                TransactionCommands::Commit => {
                    let ls = vec![
                        line(false, "🔄 Выполнение коммита транзакции..."),
                        line(false, "✅ Транзакция успешно зафиксирована"),
                    ];
                    proof {
                        assert(lines_view(ls@) =~= seq![
                            (false, "🔄 Выполнение коммита транзакции..."@),
                            (false, "✅ Транзакция успешно зафиксирована"@),
                        ]);
                    }
                    CliPlan::Print(ls)
                },
                TransactionCommands::Rollback => {
                    let ls = vec![
                        line(false, "🔄 Выполнение отката транзакции..."),
                        line(false, "✅ Транзакция успешно откачена"),
                    ];
                    proof {
                        assert(lines_view(ls@) =~= seq![
                            (false, "🔄 Выполнение отката транзакции..."@),
                            (false, "✅ Транзакция успешно откачена"@),
                        ]);
                    }
                    CliPlan::Print(ls)
                },
            },
        }
    }
}

} // verus!
