//! Talking to a language server, and the document made of what it says.

use vstd::prelude::*;
use crate::edges::{edge_texts, edges_json, show_edges, EdgeText, GraphEdge};
use crate::json::{items, json_texts, list, optional_text, put_item, text, Json, JsonText};
use crate::ranges::SourceRange;
use crate::text::{
    dec, decimal, is_digit, law_decimal_reads_back, number, opt_text, parse_u64, parse_usize, same,
    starts_with, strip_prefix, texts, trim, trim_end, trimmed, trimmed_end, trimmed_start,
};
use crate::wcgv::{symbol_texts, SymbolNode, SymbolText};
use crate::wcgv_syn::{range_json, show_range};

verus! {

/// What the arguments ask for.
#[derive(Debug, PartialEq, Eq)]
pub struct CliOptions {
    pub target_dir: String,
    pub output_path: String,
    pub include_sources: bool,
    pub rust_analyzer_bin: String,
    pub warmup_ms: u64,
    pub show_calls: bool,
    pub show_fields: bool,
    pub show_imports: bool,
    pub include_field_nodes: bool,
    pub show_impl_edges: bool,
}

/// What a `CliOptions` holds.
pub struct OptionsText {
    pub target_dir: Seq<char>,
    pub output_path: Seq<char>,
    pub include_sources: bool,
    pub rust_analyzer_bin: Seq<char>,
    pub warmup_ms: u64,
    pub show_calls: bool,
    pub show_fields: bool,
    pub show_imports: bool,
    pub include_field_nodes: bool,
    pub show_impl_edges: bool,
}

impl View for CliOptions {
    type V = OptionsText;

    open spec fn view(&self) -> OptionsText {
        OptionsText {
            target_dir: self.target_dir@,
            output_path: self.output_path@,
            include_sources: self.include_sources,
            rust_analyzer_bin: self.rust_analyzer_bin@,
            warmup_ms: self.warmup_ms,
            show_calls: self.show_calls,
            show_fields: self.show_fields,
            show_imports: self.show_imports,
            include_field_nodes: self.include_field_nodes,
            show_impl_edges: self.show_impl_edges,
        }
    }
}

/// What is wrong with the arguments.
#[derive(Debug, PartialEq, Eq)]
pub enum OptionError {
    MissingOutput,
    MissingAnalyzer,
    MissingWarmup,
    BadWarmup,
    UnknownFlag(String),
}

/// What an `OptionError` holds.
pub enum OptionErrorText {
    MissingOutput,
    MissingAnalyzer,
    MissingWarmup,
    BadWarmup,
    UnknownFlag(Seq<char>),
}

impl View for OptionError {
    type V = OptionErrorText;

    open spec fn view(&self) -> OptionErrorText {
        match self {
            OptionError::MissingOutput => OptionErrorText::MissingOutput,
            OptionError::MissingAnalyzer => OptionErrorText::MissingAnalyzer,
            OptionError::MissingWarmup => OptionErrorText::MissingWarmup,
            OptionError::BadWarmup => OptionErrorText::BadWarmup,
            OptionError::UnknownFlag(f) => OptionErrorText::UnknownFlag(f@),
        }
    }
}

impl OptionError {
    /// The error in words.
    pub open spec fn words(e: OptionErrorText) -> Seq<char> {
        match e {
            OptionErrorText::MissingOutput => "missing value for --output"@,
            OptionErrorText::MissingAnalyzer => "missing value for --rust-analyzer"@,
            OptionErrorText::MissingWarmup => "missing value for --warmup-ms"@,
            OptionErrorText::BadWarmup => "parsing --warmup-ms"@,
            OptionErrorText::UnknownFlag(f) => "unknown flag: "@ + f,
        }
    }

    /// The error in words.
    pub fn message(&self) -> (r: String)
        ensures
            r@ == Self::words(self@),
    {
        match self {
            OptionError::MissingOutput => "missing value for --output".to_owned(),
            OptionError::MissingAnalyzer => "missing value for --rust-analyzer".to_owned(),
            OptionError::MissingWarmup => "missing value for --warmup-ms".to_owned(),
            OptionError::BadWarmup => "parsing --warmup-ms".to_owned(),
            OptionError::UnknownFlag(f) => {
                let mut out: String = "unknown flag: ".to_owned();
                out.append(f.as_str());
                out
            },
        }
    }
}

/// The value behind argument `i`, if there is one.
pub open spec fn value_behind(args: Seq<Seq<char>>, i: int) -> Option<Seq<char>> {
    if i + 1 < args.len() {
        Some(args[i + 1])
    } else {
        None
    }
}

/// What an argument without a value makes of the options; `None` where it is no such argument.
pub open spec fn switched(o: OptionsText, a: Seq<char>) -> Option<OptionsText> {
    if a == "-s"@ || a == "--sources"@ {
        Some(OptionsText { include_sources: !o.include_sources, ..o })
    } else if a == "--no-calls"@ {
        Some(OptionsText { show_calls: false, ..o })
    } else if a == "--no-fields"@ {
        Some(OptionsText { show_fields: false, ..o })
    } else if a == "--no-imports"@ {
        Some(OptionsText { show_imports: false, ..o })
    } else if a == "--fields-as-nodes"@ {
        Some(OptionsText { include_field_nodes: true, ..o })
    } else if a == "--no-fields-as-nodes"@ {
        Some(OptionsText { include_field_nodes: false, ..o })
    } else if a == "--no-impl-edges"@ {
        Some(OptionsText { show_impl_edges: false, ..o })
    } else {
        None
    }
}

/// The options after the arguments from `i` on.
pub open spec fn options_from(o: OptionsText, args: Seq<Seq<char>>, i: int) -> Result<
    OptionsText,
    OptionErrorText,
>
    decreases args.len() - i,
{
    if i >= args.len() {
        Ok(o)
    } else if args[i] == "-o"@ || args[i] == "--output"@ {
        match value_behind(args, i) {
            Some(v) => options_from(OptionsText { output_path: v, ..o }, args, i + 2),
            None => Err(OptionErrorText::MissingOutput),
        }
    } else if args[i] == "--rust-analyzer"@ {
        match value_behind(args, i) {
            Some(v) => options_from(OptionsText { rust_analyzer_bin: v, ..o }, args, i + 2),
            None => Err(OptionErrorText::MissingAnalyzer),
        }
    } else if args[i] == "--warmup-ms"@ {
        match value_behind(args, i) {
            Some(v) => match number(v) {
                Some(n) if n <= u64::MAX => options_from(
                    OptionsText { warmup_ms: n as u64, ..o },
                    args,
                    i + 2,
                ),
                _ => Err(OptionErrorText::BadWarmup),
            },
            None => Err(OptionErrorText::MissingWarmup),
        }
    } else {
        match switched(o, args[i]) {
            Some(p) => options_from(p, args, i + 1),
            None => if "-"@.is_prefix_of(args[i]) {
                Err(OptionErrorText::UnknownFlag(args[i]))
            } else {
                options_from(OptionsText { target_dir: args[i], ..o }, args, i + 1)
            },
        }
    }
}

fn switch(o: &mut CliOptions, a: &str) -> (r: bool)
    ensures
        match switched(old(o)@, a@) {
            Some(p) => r && final(o)@ == p,
            None => !r && final(o)@ == old(o)@,
        },
{
    if same(a, "-s") || same(a, "--sources") {
        o.include_sources = !o.include_sources;
    } else if same(a, "--no-calls") {
        o.show_calls = false;
    } else if same(a, "--no-fields") {
        o.show_fields = false;
    } else if same(a, "--no-imports") {
        o.show_imports = false;
    } else if same(a, "--fields-as-nodes") {
        o.include_field_nodes = true;
    } else if same(a, "--no-fields-as-nodes") {
        o.include_field_nodes = false;
    } else if same(a, "--no-impl-edges") {
        o.show_impl_edges = false;
    } else {
        return false;
    }
    true
}

impl CliOptions {
    /// The options after the arguments, those behind the program's name; `start` says what holds
    /// before them.
    #[verifier::rlimit(20)]
    pub fn parse(start: CliOptions, args: &[String]) -> (r: Result<CliOptions, OptionError>)
        ensures
            match r {
                Ok(o) => options_from(start@, texts(args@), 0) == Ok::<OptionsText, OptionErrorText>(
                    o@,
                ),
                Err(e) => options_from(start@, texts(args@), 0) == Err::<
                    OptionsText,
                    OptionErrorText,
                >(e@),
            },
    {
        let ghost all = texts(args@);
        let ghost goal = options_from(start@, all, 0);
        let n: usize = args.len();
        let mut o: CliOptions = start;
        let mut i: usize = 0;
        while i < n
            invariant
                i <= n,
                n == args@.len(),
                options_from(o@, all, i as int) == goal,
            decreases n - i,
        {
            let a: &str = args[i].as_str();
            assert(all[i as int] == a@);
            let value: Option<String> = if n - i > 1 {
                assert(all[i + 1] == args@[i + 1]@);
                Some(args[i + 1].clone())
            } else {
                None
            };
            assert(opt_text(value) == value_behind(all, i as int));
            if same(a, "-o") || same(a, "--output") {
                match value {
                    Some(v) => {
                        o.output_path = v;
                        i += 2;
                    },
                    None => {
                        return Err(OptionError::MissingOutput);
                    },
                }
            } else if same(a, "--rust-analyzer") {
                match value {
                    Some(v) => {
                        o.rust_analyzer_bin = v;
                        i += 2;
                    },
                    None => {
                        return Err(OptionError::MissingAnalyzer);
                    },
                }
            } else if same(a, "--warmup-ms") {
                match value {
                    Some(v) => match parse_u64(v.as_str()) {
                        Some(ms) => {
                            o.warmup_ms = ms;
                            i += 2;
                        },
                        None => {
                            return Err(OptionError::BadWarmup);
                        },
                    },
                    None => {
                        return Err(OptionError::MissingWarmup);
                    },
                }
            } else if switch(&mut o, a) {
                i += 1;
            } else if starts_with(a, "-") {
                return Err(OptionError::UnknownFlag(args[i].clone()));
            } else {
                o.target_dir = args[i].clone();
                i += 1;
            }
        }
        Ok(o)
    }
}

/// What stands before a message of this many bytes.
pub open spec fn header(len: nat) -> Seq<char> {
    "Content-Length: "@ + dec(len) + "\r\n\r\n"@
}

/// What stands before a message of this many bytes.
pub fn frame_header(len: usize) -> (r: String)
    ensures
        r@ == header(len as nat),
{
    let mut out: String = "Content-Length: ".to_owned();
    out.append(decimal(len as u64).as_str());
    out.append("\r\n\r\n");
    out
}

/// What a line before a message says: that the message follows, how long it is, or nothing that
/// matters here.
#[derive(Debug, Clone, Copy, PartialEq, Eq, Structural)]
pub enum HeaderLine {
    End,
    Length(usize),
    BadLength,
    Other,
}

/// What a line before a message says.
pub open spec fn header_line(line: Seq<char>) -> HeaderLine {
    let l = trimmed_end(line);
    if l.len() == 0 {
        HeaderLine::End
    } else if "Content-Length:"@.is_prefix_of(l) {
        match number(trimmed(l.skip("Content-Length:"@.len() as int))) {
            Some(n) if n <= usize::MAX => HeaderLine::Length(n as usize),
            _ => HeaderLine::BadLength,
        }
    } else {
        HeaderLine::Other
    }
}

/// What a line before a message says.
pub fn read_header(line: &str) -> (r: HeaderLine)
    ensures
        r == header_line(line@),
{
    let l: String = trim_end(line);
    if l.as_str().is_empty() {
        return HeaderLine::End;
    }
    match strip_prefix(l.as_str(), "Content-Length:") {
        Some(rest) => match parse_usize(trim(rest.as_str()).as_str()) {
            Some(n) => HeaderLine::Length(n),
            None => HeaderLine::BadLength,
        },
        None => HeaderLine::Other,
    }
}

/// A header that was written is read back: its first line gives the length of the message, and the
/// line behind it says that the message follows.
pub proof fn law_header_reads_back(len: usize)
    ensures
        header(len as nat) == "Content-Length: "@ + dec(len as nat) + "\r\n"@ + "\r\n"@,
        header_line("Content-Length: "@ + dec(len as nat) + "\r\n"@) == HeaderLine::Length(len),
        header_line("\r\n"@) == HeaderLine::End,
{
    reveal_strlit("\r\n\r\n");
    reveal_strlit("\r\n");
    reveal_strlit("Content-Length: ");
    reveal_strlit("Content-Length:");
    let end = "\r\n"@;
    assert("\r\n\r\n"@ =~= end + end);
    let d = dec(len as nat);
    law_decimal_reads_back(len as nat);
    assert(header(len as nat) =~= "Content-Length: "@ + d + end + end);
    let line = "Content-Length: "@ + d + end;
    let body = "Content-Length: "@ + d;
    assert(is_digit(d[d.len() - 1]));
    assert(body.last() == d.last());
    assert(line.drop_last() =~= body.push('\r'));
    assert(line.drop_last().drop_last() =~= body);
    assert(trimmed_end(body) == body);
    assert(trimmed_end(line.drop_last()) == body);
    assert(trimmed_end(line) == body);
    assert("Content-Length:"@.is_prefix_of(body)) by {
        assert(body.subrange(0, 15) =~= "Content-Length:"@);
    }
    let rest = body.skip("Content-Length:"@.len() as int);
    assert(rest[0] == ' ');
    assert(rest.drop_first() =~= d);
    assert(is_digit(d[0]));
    assert(trimmed_start(d) == d);
    assert(trimmed_start(rest) == d);
    assert(trimmed_end(d) == d);
    assert(end.drop_last() =~= seq!['\r']);
    assert(seq!['\r'].drop_last() =~= Seq::empty());
    assert(trimmed_end(seq!['\r'].drop_last()) =~= Seq::empty());
    assert(trimmed_end(seq!['\r']) =~= Seq::empty());
    assert(trimmed_end(end) =~= Seq::empty());
}

/// What a message is to a request.
#[derive(Debug, Clone, Copy, PartialEq, Eq, Structural)]
pub enum Reply {
    Unrelated,
    Failed,
    Answered,
}

/// What a message with this id, if it has one, is to the request with id `want`.
pub fn sort_reply(id: Option<u64>, has_error: bool, want: u64) -> (r: Reply)
    ensures
        r == (if id != Some(want) {
            Reply::Unrelated
        } else if has_error {
            Reply::Failed
        } else {
            Reply::Answered
        }),
{
    match id {
        Some(n) => if n != want {
            Reply::Unrelated
        } else if has_error {
            Reply::Failed
        } else {
            Reply::Answered
        },
        None => Reply::Unrelated,
    }
}

/// A request.
pub fn request(id: u64, method: &str, params: Json) -> (r: Json)
    ensures
        r@ == JsonText::object().with("jsonrpc"@, JsonText::Text("2.0"@)).with(
            "id"@,
            JsonText::Number(id as nat),
        ).with("method"@, JsonText::Text(method@)).with("params"@, params@),
{
    Json::object().with("jsonrpc", text("2.0")).with("id", Json::Number(id)).with(
        "method",
        text(method),
    ).with("params", params)
}

/// A notification.
pub fn notification(method: &str, params: Json) -> (r: Json)
    ensures
        r@ == JsonText::object().with("jsonrpc"@, JsonText::Text("2.0"@)).with(
            "method"@,
            JsonText::Text(method@),
        ).with("params"@, params@),
{
    Json::object().with("jsonrpc", text("2.0")).with("method", text(method)).with("params", params)
}

/// An object with one entry.
pub open spec fn single(name: Seq<char>, value: JsonText) -> JsonText {
    JsonText::object().with(name, value)
}

fn one(name: &str, value: Json) -> (r: Json)
    ensures
        r@ == single(name@, value@),
{
    Json::object().with(name, value)
}

/// What the client can do.
pub open spec fn capabilities() -> JsonText {
    let none = JsonText::object();
    JsonText::object().with(
        "general"@,
        single(
            "positionEncodings"@,
            JsonText::List(
                Seq::empty().push(JsonText::Text("utf-8"@)).push(JsonText::Text("utf-16"@)),
            ),
        ),
    ).with(
        "textDocument"@,
        JsonText::object().with(
            "documentSymbol"@,
            single("hierarchicalDocumentSymbolSupport"@, JsonText::Bool(true)),
        ).with("references"@, none).with("callHierarchy"@, none).with("hover"@, none),
    ).with(
        "workspace"@,
        JsonText::object().with("workspaceFolders"@, JsonText::Bool(true)).with("symbol"@, none),
    )
}

fn make_capabilities() -> (r: Json)
    ensures
        r@ == capabilities(),
{
    let mut encodings: Vec<Json> = items();
    put_item(&mut encodings, text("utf-8"));
    put_item(&mut encodings, text("utf-16"));
    let document: Json = Json::object().with(
        "documentSymbol",
        one("hierarchicalDocumentSymbolSupport", Json::Bool(true)),
    ).with("references", Json::object()).with("callHierarchy", Json::object()).with(
        "hover",
        Json::object(),
    );
    let workspace: Json = Json::object().with("workspaceFolders", Json::Bool(true)).with(
        "symbol",
        Json::object(),
    );
    Json::object().with("general", one("positionEncodings", list(encodings))).with(
        "textDocument",
        document,
    ).with("workspace", workspace)
}

/// What the server is asked to do.
pub open spec fn server_options() -> JsonText {
    JsonText::object().with(
        "cargo"@,
        JsonText::object().with("allFeatures"@, JsonText::Bool(true)).with(
            "buildScripts"@,
            single("enable"@, JsonText::Bool(true)),
        ),
    ).with("procMacro"@, single("enable"@, JsonText::Bool(true))).with(
        "checkOnSave"@,
        JsonText::Bool(true),
    )
}

fn make_server_options() -> (r: Json)
    ensures
        r@ == server_options(),
{
    let cargo: Json = Json::object().with("allFeatures", Json::Bool(true)).with(
        "buildScripts",
        one("enable", Json::Bool(true)),
    );
    Json::object().with("cargo", cargo).with("procMacro", one("enable", Json::Bool(true))).with(
        "checkOnSave",
        Json::Bool(true),
    )
}

/// How the client introduces itself: its process, the workspace, and its version.
pub open spec fn introduction(
    process: u64,
    root_uri: Seq<char>,
    root_path: Seq<char>,
    name: Option<Seq<char>>,
    version: Seq<char>,
) -> JsonText {
    let folder = JsonText::object().with("uri"@, JsonText::Text(root_uri)).with(
        "name"@,
        JsonText::Text(
            match name {
                Some(n) => n,
                None => "workspace"@,
            },
        ),
    );
    JsonText::object().with("processId"@, JsonText::Number(process as nat)).with(
        "rootUri"@,
        JsonText::Text(root_uri),
    ).with("rootPath"@, JsonText::Text(root_path)).with(
        "workspaceFolders"@,
        JsonText::List(Seq::empty().push(folder)),
    ).with(
        "clientInfo"@,
        JsonText::object().with("name"@, JsonText::Text("wcgv"@)).with(
            "version"@,
            JsonText::Text(version),
        ),
    ).with("capabilities"@, capabilities()).with("initializationOptions"@, server_options())
}

/// How the client introduces itself.
pub fn initialize_params(
    process: u64,
    root_uri: &str,
    root_path: &str,
    name: &Option<String>,
    version: &str,
) -> (r: Json)
    ensures
        r@ == introduction(process, root_uri@, root_path@, opt_text(*name), version@),
{
    let label: Json = match name {
        Some(n) => text(n.as_str()),
        None => text("workspace"),
    };
    let mut folders: Vec<Json> = items();
    put_item(&mut folders, Json::object().with("uri", text(root_uri)).with("name", label));
    let client: Json = Json::object().with("name", text("wcgv")).with("version", text(version));
    Json::object().with("processId", Json::Number(process)).with("rootUri", text(root_uri)).with(
        "rootPath",
        text(root_path),
    ).with("workspaceFolders", list(folders)).with("clientInfo", client).with(
        "capabilities",
        make_capabilities(),
    ).with("initializationOptions", make_server_options())
}

/// A document.
pub open spec fn document(uri: Seq<char>) -> JsonText {
    single("textDocument"@, single("uri"@, JsonText::Text(uri)))
}

/// A document.
pub fn document_params(uri: &str) -> (r: Json)
    ensures
        r@ == document(uri@),
{
    one("textDocument", one("uri", text(uri)))
}

/// A document with its text.
pub fn did_open_params(uri: &str, content: &str) -> (r: Json)
    ensures
        r@ == single(
            "textDocument"@,
            JsonText::object().with("uri"@, JsonText::Text(uri@)).with(
                "languageId"@,
                JsonText::Text("rust"@),
            ).with("version"@, JsonText::Number(1)).with("text"@, JsonText::Text(content@)),
        ),
{
    one(
        "textDocument",
        Json::object().with("uri", text(uri)).with("languageId", text("rust")).with(
            "version",
            Json::Number(1),
        ).with("text", text(content)),
    )
}

/// The place of a symbol's name in its document, from line zero on.
pub open spec fn symbol_place(uri: Seq<char>, range: SourceRange) -> JsonText {
    document(uri).with(
        "position"@,
        JsonText::object().with(
            "line"@,
            JsonText::Number(
                if range.start.line > 0 {
                    (range.start.line - 1) as nat
                } else {
                    0
                },
            ),
        ).with("character"@, JsonText::Number(range.start.column as nat)),
    )
}

/// The place of a symbol's name in its document.
pub fn symbol_position_params(uri: &str, selection_range: &SourceRange) -> (r: Json)
    ensures
        r@ == symbol_place(uri@, *selection_range),
{
    let line: u64 = selection_range.start.line.saturating_sub(1);
    let place: Json = Json::object().with("line", Json::Number(line)).with(
        "character",
        Json::Number(selection_range.start.column),
    );
    document_params(uri).with("position", place)
}

/// The place of a symbol's name, to be asked for references without its declaration.
pub fn references_params(uri: &str, selection_range: &SourceRange) -> (r: Json)
    ensures
        r@ == symbol_place(uri@, *selection_range).with(
            "context"@,
            single("includeDeclaration"@, JsonText::Bool(false)),
        ),
{
    symbol_position_params(uri, selection_range).with(
        "context",
        one("includeDeclaration", Json::Bool(false)),
    )
}

/// A file of the graph, with its text where sources are wanted.
#[derive(Debug, PartialEq, Eq)]
pub struct FileData {
    pub rel_path: String,
    pub content: Option<String>,
}

/// A text where it is wanted and there.
pub open spec fn wanted(on: bool, t: Option<Seq<char>>) -> JsonText {
    match t {
        Some(s) if on => JsonText::Text(s),
        _ => JsonText::Null,
    }
}

fn want(on: bool, t: &Option<String>) -> (r: Json)
    ensures
        r@ == wanted(on, opt_text(*t)),
{
    if on {
        optional_text(t)
    } else {
        Json::Null
    }
}

/// A symbol as JSON.
pub open spec fn symbol_json(n: SymbolText, sources: bool) -> JsonText {
    JsonText::object().with("key"@, JsonText::Text(n.key)).with(
        "attributes"@,
        JsonText::object().with("label"@, JsonText::Text(n.label)).with(
            "type"@,
            JsonText::Text(n.kind),
        ).with("path"@, JsonText::Text(n.path)).with("visibility"@, JsonText::Text(n.visibility)).with(
            "level"@,
            JsonText::Number(0),
        ).with(
            "signature"@,
            match n.signature {
                Some(s) => JsonText::Text(s),
                None => JsonText::Null,
            },
        ).with("sourceSnippet"@, wanted(sources, n.source_snippet)).with(
            "range"@,
            range_json(n.full_range),
        ).with("selectionRange"@, range_json(n.selection_range)),
    )
}

fn show_symbol(n: &SymbolNode, sources: bool) -> (r: Json)
    ensures
        r@ == symbol_json(n@, sources),
{
    let attributes: Json = Json::object().with("label", text(n.label.as_str())).with(
        "type",
        text(n.kind.as_str()),
    ).with("path", text(n.path.as_str())).with("visibility", text(n.visibility.as_str())).with(
        "level",
        Json::Number(0),
    ).with("signature", optional_text(&n.signature)).with(
        "sourceSnippet",
        want(sources, &n.source_snippet),
    ).with("range", show_range(&n.full_range)).with(
        "selectionRange",
        show_range(&n.selection_range),
    );
    Json::object().with("key", text(n.key.as_str())).with("attributes", attributes)
}

/// Symbols as JSON.
pub open spec fn symbols_json(v: Seq<SymbolText>, sources: bool) -> JsonText {
    JsonText::List(v.map_values(|n: SymbolText| symbol_json(n, sources)))
}

fn show_symbols(v: &[SymbolNode], sources: bool) -> (r: Json)
    ensures
        r@ == symbols_json(symbol_texts(v@), sources),
{
    let ghost all = symbol_texts(v@).map_values(|n: SymbolText| symbol_json(n, sources));
    let mut out: Vec<Json> = items();
    let mut i: usize = 0;
    while i < v.len()
        invariant
            i <= v@.len(),
            json_texts(out@) == all.take(i as int),
        decreases v@.len() - i,
    {
        assert(all.take(i + 1) =~= all.take(i as int).push(all[i as int]));
        put_item(&mut out, show_symbol(&v[i], sources));
        i += 1;
    }
    assert(all.take(i as int) =~= all);
    list(out)
}

/// A file as JSON.
pub open spec fn file_json(f: FileData, sources: bool) -> JsonText {
    JsonText::object().with("path"@, JsonText::Text(f.rel_path@)).with(
        "content"@,
        wanted(sources, opt_text(f.content)),
    )
}

/// Files as JSON.
pub open spec fn files_json(v: Seq<FileData>, sources: bool) -> JsonText {
    JsonText::List(v.map_values(|f: FileData| file_json(f, sources)))
}

fn show_files(v: &[FileData], sources: bool) -> (r: Json)
    ensures
        r@ == files_json(v@, sources),
{
    let ghost all = v@.map_values(|f: FileData| file_json(f, sources));
    let mut out: Vec<Json> = items();
    let mut i: usize = 0;
    while i < v.len()
        invariant
            i <= v@.len(),
            json_texts(out@) == all.take(i as int),
        decreases v@.len() - i,
    {
        assert(all.take(i + 1) =~= all.take(i as int).push(all[i as int]));
        put_item(
            &mut out,
            Json::object().with("path", text(v[i].rel_path.as_str())).with(
                "content",
                want(sources, &v[i].content),
            ),
        );
        i += 1;
    }
    assert(all.take(i as int) =~= all);
    list(out)
}

/// What a graph is about.
pub struct About {
    pub root: Seq<char>,
    pub timestamp: Seq<char>,
    pub sources: bool,
    pub encoding: Seq<char>,
}

/// The document of a graph: its nodes and edges, its files, and what it is about.
pub open spec fn graph_document(
    nodes: Seq<SymbolText>,
    files: Seq<FileData>,
    edges: Seq<EdgeText>,
    about: About,
) -> JsonText {
    JsonText::object().with(
        "graph"@,
        JsonText::object().with("nodes"@, symbols_json(nodes, about.sources)).with(
            "edges"@,
            edges_json(edges),
        ),
    ).with("files"@, files_json(files, about.sources)).with(
        "metadata"@,
        JsonText::object().with("timestamp"@, JsonText::Text(about.timestamp)).with(
            "root"@,
            JsonText::Text(about.root),
        ).with("includeSources"@, JsonText::Bool(about.sources)).with(
            "positionEncoding"@,
            JsonText::Text(about.encoding),
        ).with(
            "stats"@,
            JsonText::object().with("nodes"@, JsonText::Number(nodes.len())).with(
                "edges"@,
                JsonText::Number(edges.len()),
            ).with("files"@, JsonText::Number(files.len())),
        ),
    )
}

/// The document of a graph; `timestamp` says when it was made.
pub fn build_json(
    root: &str,
    nodes: &[SymbolNode],
    files: &[FileData],
    edges: &[GraphEdge],
    include_sources: bool,
    position_encoding: &str,
    timestamp: &str,
) -> (r: Json)
    ensures
        r@ == graph_document(
            symbol_texts(nodes@),
            files@,
            edge_texts(edges@),
            About {
                root: root@,
                timestamp: timestamp@,
                sources: include_sources,
                encoding: position_encoding@,
            },
        ),
{
    let stats: Json = Json::object().with("nodes", Json::Number(nodes.len() as u64)).with(
        "edges",
        Json::Number(edges.len() as u64),
    ).with("files", Json::Number(files.len() as u64));
    let metadata: Json = Json::object().with("timestamp", text(timestamp)).with(
        "root",
        text(root),
    ).with("includeSources", Json::Bool(include_sources)).with(
        "positionEncoding",
        text(position_encoding),
    ).with("stats", stats);
    let graph: Json = Json::object().with("nodes", show_symbols(nodes, include_sources)).with(
        "edges",
        show_edges(edges),
    );
    Json::object().with("graph", graph).with("files", show_files(files, include_sources)).with(
        "metadata",
        metadata,
    )
}

} // verus!
