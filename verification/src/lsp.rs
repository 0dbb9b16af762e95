//! Language-server protocol messages, the known language servers, and
//! file-type detection by extension.

use vstd::prelude::*;
use crate::paths::{extension, lowercase, path_extension, to_lowercase};
use crate::text::{push_str, str_eq, strs_view};

verus! {

/// A position in a text document (zero-based line and character).
#[derive(Debug, Clone)]
pub struct Position {
    pub line: u32,
    pub character: u32,
}

/// A text document, by URI.
#[derive(Debug, Clone)]
pub struct TextDocumentIdentifier {
    pub uri: String,
}

/// A position in a document.
#[derive(Debug, Clone)]
pub struct TextDocumentPositionParams {
    pub text_document: TextDocumentIdentifier,
    pub position: Position,
}

/// A completion proposal.
#[derive(Debug, Clone)]
pub struct CompletionItem {
    pub label: String,
    pub kind: Option<i32>,
    pub detail: Option<String>,
    pub insert_text: Option<String>,
}

impl Default for CompletionItem {
    /// An item with an empty label and nothing else.
    fn default() -> (c: Self)
        ensures
            c.label@ == Seq::<char>::empty(),
            c.kind is None,
            c.detail is None,
            c.insert_text is None,
    {
        CompletionItem { label: String::new(), kind: None, detail: None, insert_text: None }
    }
}

/// A list of completion proposals.
#[derive(Debug, Clone)]
pub struct CompletionList {
    pub is_incomplete: bool,
    pub items: Vec<CompletionItem>,
}

/// The parameters of the `initialize` request.
#[derive(Debug, Clone)]
pub struct InitializeParams {
    pub process_id: Option<i32>,
    pub root_uri: Option<String>,
    pub capabilities: ClientCapabilities,
}

/// What the client supports.
#[derive(Debug, Clone)]
pub struct ClientCapabilities {
    pub text_document: TextDocumentClientCapabilities,
}

/// What the client supports for text documents.
#[derive(Debug, Clone)]
pub struct TextDocumentClientCapabilities {
    pub completion: CompletionClientCapabilities,
}

/// What the client supports for completion.
#[derive(Debug, Clone)]
pub struct CompletionClientCapabilities {
    pub completion_item: CompletionItemClientCapabilities,
}

/// What the client supports for completion items.
#[derive(Debug, Clone)]
pub struct CompletionItemClientCapabilities {
    pub snippet_support: bool,
}

/// The `initialize` parameters for a process and a workspace root:
/// completion without snippets.
pub fn initialize_params(process_id: i32, root_uri: &str) -> (p: InitializeParams)
    ensures
        p.process_id == Some(process_id),
        p.root_uri matches Some(u) && u@ == root_uri@,
        !p.capabilities.text_document.completion.completion_item.snippet_support,
{
    InitializeParams {
        process_id: Some(process_id),
        root_uri: Some(root_uri.to_owned()),
        capabilities: ClientCapabilities {
            text_document: TextDocumentClientCapabilities {
                completion: CompletionClientCapabilities {
                    completion_item: CompletionItemClientCapabilities { snippet_support: false },
                },
            },
        },
    }
}

/// The `file://` URI of an absolute path.
pub fn file_uri(path: &str) -> (r: String)
    ensures
        r@ == "file://"@ + path@,
{
    let mut r = String::new();
    push_str(&mut r, "file://");
    push_str(&mut r, path);
    r
}

// ---------------------------------------------------------------------------
// Image types
// ---------------------------------------------------------------------------

/// The MIME type of an image file by its lowercase extension.
pub open spec fn image_mime(ext: Seq<char>) -> Option<Seq<char>> {
    if ext == "png"@ {
        Some("image/png"@)
    } else if ext == "jpg"@ || ext == "jpeg"@ {
        Some("image/jpeg"@)
    } else if ext == "gif"@ {
        Some("image/gif"@)
    } else if ext == "webp"@ {
        Some("image/webp"@)
    } else {
        None
    }
}

/// The MIME type of an image file by its lowercase extension.
pub fn image_mime_for_extension(ext: &str) -> (r: Option<&'static str>)
    ensures
        match r {
            Some(m) => image_mime(ext@) == Some(m@),
            None => image_mime(ext@) is None,
        },
{
    if str_eq(ext, "png") {
        Some("image/png")
    } else if str_eq(ext, "jpg") || str_eq(ext, "jpeg") {
        Some("image/jpeg")
    } else if str_eq(ext, "gif") {
        Some("image/gif")
    } else if str_eq(ext, "webp") {
        Some("image/webp")
    } else {
        None
    }
}

/// The MIME type of an image file, by its extension in any case.
pub fn detect_image_mime(path: &str) -> (r: Option<&'static str>)
    ensures
        match path_extension(path@) {
            Some(e) => match r {
                Some(m) => image_mime(lowercase(e)) == Some(m@),
                None => image_mime(lowercase(e)) is None,
            },
            None => r is None,
        },
{
    match extension(path) {
        Some(e) => {
            let l = to_lowercase(e.as_str());
            image_mime_for_extension(l.as_str())
        },
        None => None,
    }
}

// ---------------------------------------------------------------------------
// Language servers
// ---------------------------------------------------------------------------

/// A language server: how to start it and which languages it serves.
#[derive(Debug, Clone)]
pub struct LanguageServer {
    pub command: String,
    pub args: Vec<String>,
    pub languages: Vec<String>,
}

/// A language server as text.
pub open spec fn server_view(s: LanguageServer) -> (Seq<char>, Seq<Seq<char>>, Seq<Seq<char>>) {
    (s.command@, strs_view(s.args@), strs_view(s.languages@))
}

/// The known language servers, in order of preference.
pub open spec fn known_server_views() -> Seq<(Seq<char>, Seq<Seq<char>>, Seq<Seq<char>>)> {
    seq![
        ("rust-analyzer"@, Seq::empty(), seq!["rust"@]),
        ("clangd"@, Seq::empty(), seq!["c"@, "cpp"@, "objc"@, "objcpp"@]),
        ("pylsp"@, Seq::empty(), seq!["python"@]),
        ("gopls"@, Seq::empty(), seq!["go"@]),
        ("typescript-language-server"@, seq!["--stdio"@], seq!["typescript"@, "javascript"@]),
    ]
}

/// The known language servers, in order of preference.
pub fn known_servers() -> (r: Vec<LanguageServer>)
    ensures
        Seq::new(r@.len(), |i: int| server_view(r@[i])) == known_server_views(),
{
    let mut r: Vec<LanguageServer> = Vec::new();
    let mut none: Vec<String> = Vec::new();
    let mut l: Vec<String> = Vec::new();
    crate::text::push_owned(&mut l, "rust");
    r.push(LanguageServer { command: "rust-analyzer".to_owned(), args: none, languages: l });
    let mut none: Vec<String> = Vec::new();
    let mut l: Vec<String> = Vec::new();
    crate::text::push_owned(&mut l, "c");
    crate::text::push_owned(&mut l, "cpp");
    crate::text::push_owned(&mut l, "objc");
    crate::text::push_owned(&mut l, "objcpp");
    r.push(LanguageServer { command: "clangd".to_owned(), args: none, languages: l });
    let mut none: Vec<String> = Vec::new();
    let mut l: Vec<String> = Vec::new();
    crate::text::push_owned(&mut l, "python");
    r.push(LanguageServer { command: "pylsp".to_owned(), args: none, languages: l });
    let mut none: Vec<String> = Vec::new();
    let mut l: Vec<String> = Vec::new();
    crate::text::push_owned(&mut l, "go");
    r.push(LanguageServer { command: "gopls".to_owned(), args: none, languages: l });
    let mut a: Vec<String> = Vec::new();
    crate::text::push_owned(&mut a, "--stdio");
    let mut l: Vec<String> = Vec::new();
    crate::text::push_owned(&mut l, "typescript");
    crate::text::push_owned(&mut l, "javascript");
    r.push(LanguageServer { command: "typescript-language-server".to_owned(), args: a, languages: l });
    proof {
        let v = Seq::new(r@.len(), |i: int| server_view(r@[i]));
        assert(strs_view(Seq::<String>::empty()) =~= Seq::<Seq<char>>::empty());
        assert(v[0] == known_server_views()[0]);
        assert(v[1] == known_server_views()[1]);
        assert(v[2] == known_server_views()[2]);
        assert(v[3] == known_server_views()[3]);
        assert(v[4] == known_server_views()[4]);
        assert(v =~= known_server_views());
    }
    r
}


/// The language of a file by its lowercase extension.
pub open spec fn language_for_ext(e: Seq<char>) -> Option<Seq<char>> {
    if e == "rs"@ {
        Some("rust"@)
    } else if e == "c"@ {
        Some("c"@)
    } else if e == "cpp"@ || e == "cc"@ || e == "cxx"@ || e == "h"@ || e == "hpp"@ {
        Some("cpp"@)
    } else if e == "py"@ {
        Some("python"@)
    } else if e == "go"@ {
        Some("go"@)
    } else if e == "ts"@ || e == "tsx"@ {
        Some("typescript"@)
    } else if e == "js"@ || e == "jsx"@ {
        Some("javascript"@)
    } else {
        None
    }
}

/// `i` is the first known server that serves `lang`.
pub open spec fn first_serving(
    servers: Seq<(Seq<char>, Seq<Seq<char>>, Seq<Seq<char>>)>,
    lang: Seq<char>,
    i: int,
) -> bool {
    &&& 0 <= i < servers.len()
    &&& servers[i].2.contains(lang)
    &&& forall|j: int| 0 <= j < i ==> !servers[j].2.contains(lang)
}

/// The server for a language: the first known one that serves it.
pub open spec fn server_for_language(lang: Seq<char>) -> Option<(Seq<char>, Seq<Seq<char>>, Seq<Seq<char>>)> {
    if exists|i: int| first_serving(known_server_views(), lang, i) {
        let i = choose|i: int| first_serving(known_server_views(), lang, i);
        Some(known_server_views()[i])
    } else {
        None
    }
}

/// The server for a file with the given lowercase extension.
pub open spec fn server_for_ext(e: Seq<char>) -> Option<(Seq<char>, Seq<Seq<char>>, Seq<Seq<char>>)> {
    match language_for_ext(e) {
        Some(l) => server_for_language(l),
        None => None,
    }
}

fn language_of(ext: &str) -> (r: Option<&'static str>)
    ensures
        match r {
            Some(l) => language_for_ext(ext@) == Some(l@),
            None => language_for_ext(ext@) is None,
        },
{
    if str_eq(ext, "rs") {
        Some("rust")
    } else if str_eq(ext, "c") {
        Some("c")
    } else if str_eq(ext, "cpp") || str_eq(ext, "cc") || str_eq(ext, "cxx") || str_eq(ext, "h")
        || str_eq(ext, "hpp") {
        Some("cpp")
    } else if str_eq(ext, "py") {
        Some("python")
    } else if str_eq(ext, "go") {
        Some("go")
    } else if str_eq(ext, "ts") || str_eq(ext, "tsx") {
        Some("typescript")
    } else if str_eq(ext, "js") || str_eq(ext, "jsx") {
        Some("javascript")
    } else {
        None
    }
}

fn serves(s: &LanguageServer, lang: &str) -> (r: bool)
    ensures
        r == strs_view(s.languages@).contains(lang@),
{
    let mut i: usize = 0;
    while i < s.languages.len()
        invariant
            i <= s.languages@.len(),
            forall|k: int| 0 <= k < i ==> s.languages@[k]@ != lang@,
        decreases s.languages.len() - i,
    {
        if str_eq(s.languages[i].as_str(), lang) {
            assert(strs_view(s.languages@)[i as int] == lang@);
            return true;
        }
        i = i + 1;
    }
    proof {
        let v = strs_view(s.languages@);
        assert forall|k: int| 0 <= k < v.len() implies v[k] != lang@ by {
            assert(v[k] == s.languages@[k]@);
        }
    }
    false
}

/// The language server for a file with the given lowercase extension.
pub fn server_for_extension(ext: &str) -> (r: Option<LanguageServer>)
    ensures
        match r {
            Some(s) => server_for_ext(ext@) == Some(server_view(s)),
            None => server_for_ext(ext@) is None,
        },
{
    let lang = match language_of(ext) {
        Some(l) => l,
        None => return None,
    };
    let mut servers = known_servers();
    let ghost views = Seq::new(servers@.len(), |i: int| server_view(servers@[i]));
    let mut i: usize = 0;
    while i < servers.len()
        invariant
            i <= servers@.len(),
            views == Seq::new(servers@.len(), |i: int| server_view(servers@[i])),
            views == known_server_views(),
            language_for_ext(ext@) == Some(lang@),
            forall|j: int| 0 <= j < i ==> !views[j].2.contains(lang@),
        decreases servers.len() - i,
    {
        if serves(&servers[i], lang) {
            proof {
                assert(views[i as int] == server_view(servers@[i as int]));
                assert(first_serving(known_server_views(), lang@, i as int));
                let j = choose|j: int| first_serving(known_server_views(), lang@, j);
                if j < i {
                    assert(!views[j].2.contains(lang@));
                } else if j > i {
                    assert(!known_server_views()[i as int].2.contains(lang@));
                }
                assert(j == i);
                assert(server_for_language(lang@) == Some(views[i as int]));
            }
            let ghost before = servers@;
            let s = servers.remove(i);
            assert(s == before[i as int]);
            assert(server_view(s) == views[i as int]);
            assert(language_for_ext(ext@) == Some(lang@));
            assert(server_for_ext(ext@) == server_for_language(lang@));
            return Some(s);
        }
        proof {
            assert(views[i as int] == server_view(servers@[i as int]));
        }
        i = i + 1;
    }
    assert forall|j: int| !first_serving(known_server_views(), lang@, j) by {}
    None
}

/// The language server for a file, chosen by its extension in any case.
pub fn find_server_for_file(path: &str) -> (r: Option<LanguageServer>)
    ensures
        match path_extension(path@) {
            Some(e) => match r {
                Some(s) => server_for_ext(lowercase(e)) == Some(server_view(s)),
                None => server_for_ext(lowercase(e)) is None,
            },
            None => r is None,
        },
{
    match extension(path) {
        Some(e) => {
            let l = to_lowercase(e.as_str());
            server_for_extension(l.as_str())
        },
        None => None,
    }
}

} // verus!
