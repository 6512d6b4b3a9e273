//! Model Context Protocol: server configuration, environment placeholders and
//! the naming of a server's tools.

use crate::error::AgentError;
use crate::json;
use crate::json::{Json, JsonView};
use crate::provider::{ToolDef, ToolDefView};
use crate::text;
use crate::text::{chars_of, find_from, text_between};
use crate::views;
use vstd::prelude::*;

verus! {

/// A map from texts to texts: environment variables, or request headers.
#[verifier::external_body]
#[derive(Debug, PartialEq, Eq)]
pub struct TextMap {
    map: hashbrown::HashMap<String, String>,
}

/// What a text map holds.
pub uninterp spec fn texts_in(map: TextMap) -> Map<Seq<char>, Seq<char>>;

impl View for TextMap {
    type V = Map<Seq<char>, Seq<char>>;

    open spec fn view(&self) -> Map<Seq<char>, Seq<char>> {
        texts_in(*self)
    }
}

/// The mapping that a list of pairs stands for; a later pair replaces an
/// earlier one with its key.
pub open spec fn pairs_model(pairs: Seq<(String, String)>) -> Map<Seq<char>, Seq<char>>
    decreases pairs.len(),
{
    if pairs.len() == 0 {
        Map::empty()
    } else {
        pairs_model(pairs.drop_last()).insert(pairs.last().0@, pairs.last().1@)
    }
}

/// No key comes twice.
pub open spec fn keys_differ<V>(pairs: Seq<(String, V)>) -> bool {
    forall|i: int, j: int|
        0 <= i < j < pairs.len() ==> (#[trigger] pairs[i]).0@ != (#[trigger] pairs[j]).0@
}

impl TextMap {
    /// `hashbrown::HashMap::new`.
    #[verifier::external_body]
    fn new() -> (map: TextMap)
        ensures
            texts_in(map).dom() == Set::<Seq<char>>::empty(),
    {
        TextMap { map: hashbrown::HashMap::new() }
    }

    /// `hashbrown::HashMap::insert`: sets the value of a key.
    #[verifier::external_body]
    fn insert(&mut self, key: String, value: String)
        ensures
            texts_in(*final(self)) == texts_in(*old(self)).insert(key@, value@),
    {
        let _ = self.map.insert(key, value);
    }

    /// `hashbrown::HashMap::get`.
    #[verifier::external_body]
    fn get(&self, key: &str) -> (value: Option<&String>)
        ensures
            match value {
                Some(v) => texts_in(*self).contains_key(key@) && texts_in(*self)[key@] == v@,
                None => !texts_in(*self).contains_key(key@),
            },
    {
        self.map.get(key)
    }

    /// `hashbrown::HashMap`'s `into_iter`: every entry once, in no particular
    /// order.
    #[verifier::external_body]
    fn into_pairs(self) -> (pairs: Vec<(String, String)>)
        ensures
            keys_differ(pairs@),
            pairs_model(pairs@) == texts_in(self),
    {
        self.map.into_iter().collect()
    }

    /// The map with these entries; a later one replaces an earlier one with its
    /// key.
    pub fn from_pairs(pairs: Vec<(String, String)>) -> (map: TextMap)
        ensures
            map@ == pairs_model(pairs@),
    {
        let mut map = TextMap::new();
        let mut i: usize = 0;
        assert(map@ =~= pairs_model(pairs@.take(0)));
        while i < pairs.len()
            invariant
                i <= pairs@.len(),
                map@ == pairs_model(pairs@.take(i as int)),
            decreases pairs@.len() - i,
        {
            assert(pairs@.take(i + 1).drop_last() =~= pairs@.take(i as int));
            map.insert(pairs[i].0.clone(), pairs[i].1.clone());
            i = i + 1;
        }
        assert(pairs@.take(i as int) =~= pairs@);
        map
    }

    /// The value of a key.
    pub fn value(&self, key: &str) -> (value: Option<&String>)
        ensures
            match value {
                Some(v) => self@.contains_key(key@) && self@[key@] == v@,
                None => !self@.contains_key(key@),
            },
    {
        self.get(key)
    }
}

/// The first position from `from` on at which `needle` stands in `text`.
pub open spec fn first_from(text: Seq<char>, needle: Seq<char>, from: int) -> Option<int>
    decreases text.len() + 1 - from,
{
    if from > text.len() {
        None
    } else if text::stands_at(text, needle, from) {
        Some(from)
    } else {
        first_from(text, needle, from + 1)
    }
}

proof fn lemma_first_from(text: Seq<char>, needle: Seq<char>, from: int, at: Option<usize>)
    requires
        0 <= from,
        match at {
            Some(i) => {
                &&& from <= i
                &&& text::stands_at(text, needle, i as int)
                &&& forall|j: int| from <= j < i ==> !text::stands_at(text, needle, j)
            },
            None => forall|j: int| from <= j ==> !text::stands_at(text, needle, j),
        },
    ensures
        match at {
            Some(i) => first_from(text, needle, from) == Some(i as int),
            None => first_from(text, needle, from) is None,
        },
    decreases text.len() + 1 - from,
{
    if from <= text.len() && !text::stands_at(text, needle, from) {
        lemma_first_from(text, needle, from + 1, at);
    }
}

pub proof fn lemma_first_from_bounds(text: Seq<char>, needle: Seq<char>, from: int)
    requires
        0 <= from,
    ensures
        first_from(text, needle, from) matches Some(i) ==> from <= i && i + needle.len()
            <= text.len(),
    decreases text.len() + 1 - from,
{
    if from <= text.len() && !text::stands_at(text, needle, from) {
        lemma_first_from_bounds(text, needle, from + 1);
    }
}

fn find_first(chars: &Vec<char>, needle: &str, from: usize) -> (at: Option<usize>)
    ensures
        match at {
            Some(i) => {
                &&& first_from(chars@, needle@, from as int) == Some(i as int)
                &&& from <= i
                &&& i + needle@.len() <= chars@.len()
            },
            None => first_from(chars@, needle@, from as int) is None,
        },
{
    let wanted = chars_of(needle);
    let at = find_from(chars, &wanted, from);
    proof {
        lemma_first_from(chars@, needle@, from as int, at);
    }
    at
}

/// The name and the default of a placeholder: `NAME` or `NAME:-default`.
pub open spec fn placeholder(expr: Seq<char>) -> (Seq<char>, Option<Seq<char>>) {
    match first_from(expr, ":-"@, 0) {
        Some(i) => (expr.take(i), Some(expr.skip(i + ":-"@.len()))),
        None => (expr, None),
    }
}

/// What a placeholder expands to: the variable, else the default, else nothing.
pub open spec fn substituted(expr: Seq<char>, env: Map<Seq<char>, Seq<char>>) -> Seq<char> {
    let (name, default) = placeholder(expr);
    if env.contains_key(name) {
        env[name]
    } else {
        match default {
            Some(d) => d,
            None => Seq::empty(),
        }
    }
}

/// The text with every `${VAR}` and `${VAR:-default}` expanded; what an
/// expansion puts in is not expanded again, and an unclosed `${` stays.
pub open spec fn expanded(input: Seq<char>, env: Map<Seq<char>, Seq<char>>) -> Seq<char>
    decreases input.len(),
{
    proof {
        reveal_strlit("${");
        reveal_strlit("}");
        lemma_first_from_bounds(input, "${"@, 0);
    }
    match first_from(input, "${"@, 0) {
        None => input,
        Some(start) => {
            let after = input.skip(start + "${"@.len());
            proof {
                lemma_first_from_bounds(after, "}"@, 0);
            }
            match first_from(after, "}"@, 0) {
                Some(close) => input.take(start) + substituted(after.take(close), env) + expanded(
                    after.skip(close + "}"@.len()),
                    env,
                ),
                None => input.take(start) + "${"@ + expanded(after, env),
            }
        },
    }
}

fn substitute(expr: &Vec<char>, env: &TextMap) -> (value: String)
    ensures
        value@ == substituted(expr@, env@),
{
    proof {
        reveal_strlit(":-");
    }
    let split = find_first(expr, ":-", 0);
    let name_end: usize = match split {
        Some(i) => i,
        None => expr.len(),
    };
    let name = text_between(expr, 0, name_end);
    proof {
        assert(name@ =~= placeholder(expr@).0);
    }
    match env.get(name.as_str()) {
        Some(value) => value.clone(),
        None => match split {
            Some(i) => {
                let end: usize = expr.len();
                let default = text_between(expr, i + 2, end);
                assert(default@ =~= expr@.skip(i + ":-"@.len()));
                default
            },
            None => {
                let empty = String::new();
                assert(empty@ =~= Seq::empty());
                empty
            },
        },
    }
}

fn chars_between(chars: &Vec<char>, from: usize, to: usize) -> (part: Vec<char>)
    requires
        from <= to <= chars@.len(),
    ensures
        part@ == chars@.subrange(from as int, to as int),
{
    let mut part: Vec<char> = Vec::new();
    let mut i: usize = from;
    while i < to
        invariant
            from <= i <= to <= chars@.len(),
            part@ == chars@.subrange(from as int, i as int),
        decreases to - i,
    {
        part.push(chars[i]);
        assert(chars@.subrange(from as int, i + 1) =~= chars@.subrange(from as int, i as int).push(
            chars@[i as int],
        ));
        i = i + 1;
    }
    part
}

/// Expands every `${VAR}` and `${VAR:-default}` in `input`.
pub fn expand(input: &str, env: &TextMap) -> (output: String)
    ensures
        output@ == expanded(input@, env@),
{
    let mut rest = chars_of(input);
    let mut out = String::new();
    proof {
        reveal_strlit("${");
        reveal_strlit("}");
        assert(out@ + expanded(rest@, env@) =~= expanded(input@, env@));
    }
    loop
        invariant
            out@ + expanded(rest@, env@) == expanded(input@, env@),
            "${"@.len() == 2,
            "}"@.len() == 1,
        ensures
            out@ + rest@ == expanded(input@, env@),
        decreases rest@.len(),
    {
        let start: usize = match find_first(&rest, "${", 0) {
            Some(start) => start,
            None => {
                break;
            },
        };
        let ghost before = out@;
        let ghost input_rest = rest@;
        out.append(text_between(&rest, 0, start).as_str());
        let end: usize = rest.len();
        let after = chars_between(&rest, start + 2, end);
        assert(after@ =~= rest@.skip(start + "${"@.len()));
        assert(rest@.take(start as int) =~= rest@.subrange(0, start as int));
        match find_first(&after, "}", 0) {
            Some(close) => {
                let expr = chars_between(&after, 0, close);
                assert(expr@ =~= after@.take(close as int));
                let value = substitute(&expr, env);
                out.append(value.as_str());
                let end: usize = after.len();
                rest = chars_between(&after, close + 1, end);
                assert(rest@ =~= after@.skip(close + "}"@.len()));
                assert(out@ + expanded(rest@, env@) =~= before + (input_rest.take(start as int)
                    + substituted(expr@, env@) + expanded(rest@, env@)));
            },
            None => {
                out.append("${");
                rest = after;
                assert(out@ + expanded(rest@, env@) =~= before + (input_rest.take(start as int)
                    + "${"@ + expanded(rest@, env@)));
            },
        }
    }
    out.append(text_between(&rest, 0, rest.len()).as_str());
    assert(rest@.subrange(0, rest@.len() as int) =~= rest@);
    out
}

/// A text without a placeholder is left as it is, whatever the environment.
pub proof fn a_text_without_placeholders_is_kept(
    input: Seq<char>,
    env: Map<Seq<char>, Seq<char>>,
)
    requires
        !text::holds_text(input, "${"@),
    ensures
        expanded(input, env) == input,
{
    lemma_first_from(input, "${"@, 0, None);
}

/// An MCP server definition.
#[derive(Debug, PartialEq, Eq)]
pub enum McpServer {
    /// A local process speaking MCP over stdio.
    Stdio {
        /// Executable to run.
        command: String,
        /// Command-line arguments.
        args: Vec<String>,
        /// Environment variables for the child process.
        env: TextMap,
    },
    /// A remote streamable-HTTP server.
    Http {
        /// Server URL.
        url: String,
        /// Extra request headers.
        headers: TextMap,
    },
    /// A remote SSE server (deprecated transport).
    Sse {
        /// Server URL.
        url: String,
        /// Extra request headers.
        headers: TextMap,
    },
}

/// What an [`McpServer`] stands for.
#[verifier::ext_equal]
pub enum McpServerView {
    /// A local process speaking MCP over stdio.
    Stdio {
        /// Executable to run.
        command: Seq<char>,
        /// Command-line arguments.
        args: Seq<Seq<char>>,
        /// Environment variables for the child process.
        env: Map<Seq<char>, Seq<char>>,
    },
    /// A remote streamable-HTTP server.
    Http {
        /// Server URL.
        url: Seq<char>,
        /// Extra request headers.
        headers: Map<Seq<char>, Seq<char>>,
    },
    /// A remote SSE server.
    Sse {
        /// Server URL.
        url: Seq<char>,
        /// Extra request headers.
        headers: Map<Seq<char>, Seq<char>>,
    },
}

impl View for McpServer {
    type V = McpServerView;

    open spec fn view(&self) -> McpServerView {
        match *self {
            McpServer::Stdio { command, args, env } => McpServerView::Stdio {
                command: command@,
                args: views::each(args@),
                env: env@,
            },
            McpServer::Http { url, headers } => McpServerView::Http {
                url: url@,
                headers: headers@,
            },
            McpServer::Sse { url, headers } => McpServerView::Sse {
                url: url@,
                headers: headers@,
            },
        }
    }
}

/// A map with its values expanded.
pub open spec fn expanded_values(
    map: Map<Seq<char>, Seq<char>>,
    env: Map<Seq<char>, Seq<char>>,
) -> Map<Seq<char>, Seq<char>> {
    map.map_values(|v: Seq<char>| expanded(v, env))
}

/// Texts expanded one by one.
pub open spec fn expanded_texts(
    texts: Seq<Seq<char>>,
    env: Map<Seq<char>, Seq<char>>,
) -> Seq<Seq<char>> {
    texts.map_values(|t: Seq<char>| expanded(t, env))
}

/// A server definition with its texts expanded; keys stay as they are.
pub open spec fn expanded_server(
    server: McpServerView,
    vars: Map<Seq<char>, Seq<char>>,
) -> McpServerView {
    match server {
        McpServerView::Stdio { command, args, env } => McpServerView::Stdio {
            command: expanded(command, vars),
            args: expanded_texts(args, vars),
            env: expanded_values(env, vars),
        },
        McpServerView::Http { url, headers } => McpServerView::Http {
            url: expanded(url, vars),
            headers: expanded_values(headers, vars),
        },
        McpServerView::Sse { url, headers } => McpServerView::Sse {
            url: expanded(url, vars),
            headers: expanded_values(headers, vars),
        },
    }
}

fn expand_map(map: TextMap, env: &TextMap) -> (out: TextMap)
    ensures
        out@ == expanded_values(map@, env@),
{
    let pairs = map.into_pairs();
    let mut out = TextMap::new();
    let mut i: usize = 0;
    assert(out@ =~= expanded_values(pairs_model(pairs@.take(0)), env@));
    while i < pairs.len()
        invariant
            i <= pairs@.len(),
            out@ == expanded_values(pairs_model(pairs@.take(i as int)), env@),
        decreases pairs@.len() - i,
    {
        let ghost part = pairs_model(pairs@.take(i as int));
        out.insert(pairs[i].0.clone(), expand(pairs[i].1.as_str(), env));
        proof {
            assert(pairs@.take(i + 1).drop_last() =~= pairs@.take(i as int));
            assert(out@ =~= expanded_values(
                part.insert(pairs@[i as int].0@, pairs@[i as int].1@),
                env@,
            ));
        }
        i = i + 1;
    }
    assert(pairs@.take(i as int) =~= pairs@);
    out
}

fn expand_all(texts: &Vec<String>, env: &TextMap) -> (out: Vec<String>)
    ensures
        views::each(out@) == expanded_texts(views::each(texts@), env@),
{
    let mut out: Vec<String> = Vec::new();
    let mut i: usize = 0;
    while i < texts.len()
        invariant
            i <= texts@.len(),
            out@.len() == i,
            forall|j: int| 0 <= j < i ==> (#[trigger] out@[j])@ == expanded(texts@[j]@, env@),
        decreases texts@.len() - i,
    {
        out.push(expand(texts[i].as_str(), env));
        i = i + 1;
    }
    assert(views::each(out@) =~= expanded_texts(views::each(texts@), env@));
    out
}

impl McpServer {
    /// Expands the placeholders in the string fields, given the environment.
    #[must_use]
    pub fn expand_env(self, vars: &TextMap) -> (server: McpServer)
        ensures
            server@ == expanded_server(self@, vars@),
    {
        match self {
            McpServer::Stdio { command, args, env } => McpServer::Stdio {
                command: expand(command.as_str(), vars),
                args: expand_all(&args, vars),
                env: expand_map(env, vars),
            },
            McpServer::Http { url, headers } => McpServer::Http {
                url: expand(url.as_str(), vars),
                headers: expand_map(headers, vars),
            },
            McpServer::Sse { url, headers } => McpServer::Sse {
                url: expand(url.as_str(), vars),
                headers: expand_map(headers, vars),
            },
        }
    }
}

/// Strings of a JSON array; `None` where an element is no string.
pub open spec fn strings_of(items: Seq<JsonView>) -> Option<Seq<Seq<char>>>
    decreases items.len(),
{
    if items.len() == 0 {
        Some(Seq::empty())
    } else {
        match (strings_of(items.drop_last()), items.last().text()) {
            (Some(before), Some(s)) => Some(before.push(s)),
            _ => None,
        }
    }
}

/// Whether every member of an object is a string.
pub open spec fn all_texts(members: Map<Seq<char>, JsonView>) -> bool {
    forall|k: Seq<char>| #[trigger] members.contains_key(k) ==> members[k] is Text
}

/// The texts of an object of strings; `None` where it is none.
pub open spec fn text_map_of(value: JsonView) -> Option<Map<Seq<char>, Seq<char>>> {
    match value {
        JsonView::Object(members) => if all_texts(members) {
            Some(members.map_values(|v: JsonView| v->Text_0))
        } else {
            None
        },
        _ => None,
    }
}

/// The list of strings that is a part of a record; an absent one is empty.
pub open spec fn list_at(value: JsonView, key: Seq<char>, position: int) -> Option<Seq<Seq<char>>> {
    match value.part(key, position) {
        None => Some(Seq::empty()),
        Some(list) => match list.elements() {
            Some(items) => strings_of(items),
            None => None,
        },
    }
}

/// The texts of the object that is a part of a record; an absent one is empty.
pub open spec fn texts_at(value: JsonView, key: Seq<char>, position: int) -> Option<
    Map<Seq<char>, Seq<char>>,
> {
    match value.part(key, position) {
        None => Some(Map::empty()),
        Some(object) => text_map_of(object),
    }
}

/// The server definition that a JSON value stands for, by its `type`. An array
/// lists the type and what goes with it, in the order of the definition.
pub open spec fn server_of(value: JsonView) -> Option<McpServerView> {
    match value.text_part("type"@, 0) {
        None => None,
        Some(kind) => if kind == "stdio"@ {
            match (
                value.text_part("command"@, 1),
                list_at(value, "args"@, 2),
                texts_at(value, "env"@, 3),
            ) {
                (Some(command), Some(args), Some(env)) => if value.fits(4) {
                    Some(McpServerView::Stdio { command, args, env })
                } else {
                    None
                },
                _ => None,
            }
        } else if kind == "http"@ || kind == "sse"@ {
            match (value.text_part("url"@, 1), texts_at(value, "headers"@, 2)) {
                (Some(url), Some(headers)) => if !value.fits(3) {
                    None
                } else if kind == "http"@ {
                    Some(McpServerView::Http { url, headers })
                } else {
                    Some(McpServerView::Sse { url, headers })
                },
                _ => None,
            }
        } else {
            None
        },
    }
}

/// The message for a member of the wrong type.
pub open spec fn wrong_type(key: Seq<char>) -> Seq<char> {
    "invalid type of field `"@ + key + "`"@
}

/// What is wrong with a member that should be a string.
pub open spec fn text_fault(value: JsonView, key: Seq<char>, position: int) -> Seq<char> {
    if value.part(key, position) is None {
        "missing field `"@ + key + "`"@
    } else {
        wrong_type(key)
    }
}

/// What is wrong with a value that is no server definition: the first member, in
/// the order of the definition, that is missing or of the wrong type, or else that
/// there are more.
pub open spec fn server_fault(value: JsonView) -> Seq<char> {
    match value.text_part("type"@, 0) {
        None => text_fault(value, "type"@, 0),
        Some(kind) => if kind == "stdio"@ {
            if value.text_part("command"@, 1) is None {
                text_fault(value, "command"@, 1)
            } else if list_at(value, "args"@, 2) is None {
                wrong_type("args"@)
            } else if texts_at(value, "env"@, 3) is None {
                wrong_type("env"@)
            } else {
                "invalid length of the server definition"@
            }
        } else if kind == "http"@ || kind == "sse"@ {
            if value.text_part("url"@, 1) is None {
                text_fault(value, "url"@, 1)
            } else if texts_at(value, "headers"@, 2) is None {
                wrong_type("headers"@)
            } else {
                "invalid length of the server definition"@
            }
        } else {
            "unknown variant `"@ + kind + "`, expected one of `stdio`, `http`, `sse`"@
        },
    }
}

fn describe_wrong_type(key: &str) -> (message: String)
    ensures
        message@ == wrong_type(key@),
{
    "invalid type of field `".to_owned().concat(key).concat("`")
}

fn describe_text_fault(value: &Json, key: &str, position: usize) -> (message: String)
    ensures
        message@ == text_fault(value@, key@, position as int),
{
    if value.part(key, position).is_none() {
        "missing field `".to_owned().concat(key).concat("`")
    } else {
        describe_wrong_type(key)
    }
}

fn describe_server_fault(value: &Json) -> (message: String)
    ensures
        message@ == server_fault(value@),
{
    match value.str_part("type", 0) {
        None => describe_text_fault(value, "type", 0),
        Some(kind) => if *kind == *"stdio" {
            if value.str_part("command", 1).is_none() {
                describe_text_fault(value, "command", 1)
            } else if read_list(value, "args", 2).is_none() {
                describe_wrong_type("args")
            } else if read_texts(value, "env", 3).is_none() {
                describe_wrong_type("env")
            } else {
                "invalid length of the server definition".to_owned()
            }
        } else if *kind == *"http" || *kind == *"sse" {
            if value.str_part("url", 1).is_none() {
                describe_text_fault(value, "url", 1)
            } else if read_texts(value, "headers", 2).is_none() {
                describe_wrong_type("headers")
            } else {
                "invalid length of the server definition".to_owned()
            }
        } else {
            "unknown variant `".to_owned().concat(kind).concat(
                "`, expected one of `stdio`, `http`, `sse`",
            )
        },
    }
}

fn read_strings(items: &Vec<Json>) -> (out: Option<Vec<String>>)
    ensures
        match out {
            Some(v) => strings_of(views::each(items@)) == Some(views::each(v@)),
            None => strings_of(views::each(items@)) is None,
        },
{
    let ghost all = views::each(items@);
    let mut out: Vec<String> = Vec::new();
    let mut i: usize = 0;
    assert(views::each(out@) =~= Seq::empty());
    assert(all.take(0) =~= Seq::empty());
    while i < items.len()
        invariant
            i <= items@.len(),
            all == views::each(items@),
            strings_of(all.take(i as int)) == Some(views::each(out@)),
        decreases items@.len() - i,
    {
        let ghost before = out@;
        assert(all.take(i + 1).drop_last() =~= all.take(i as int));
        match items[i].as_str() {
            Some(s) => {
                let owned = s.to_owned();
                out.push(owned);
                assert(views::each(out@) =~= views::each(before).push(owned@));
            },
            None => {
                proof {
                    lemma_no_strings(all, i + 1);
                }
                return None;
            },
        }
        i = i + 1;
    }
    assert(all.take(i as int) =~= all);
    Some(out)
}

proof fn lemma_no_strings(items: Seq<JsonView>, n: int)
    requires
        0 <= n <= items.len(),
        strings_of(items.take(n)) is None,
    ensures
        strings_of(items) is None,
    decreases items.len(),
{
    if n < items.len() {
        assert(items.drop_last().take(n) =~= items.take(n));
        lemma_no_strings(items.drop_last(), n);
    } else {
        assert(items.take(n) =~= items);
    }
}

fn read_text_map(value: &Json) -> (out: Option<TextMap>)
    ensures
        match out {
            Some(m) => text_map_of(value@) == Some(m@),
            None => text_map_of(value@) is None,
        },
{
    match value {
        Json::Object(entries) => {
            let ghost members = Json::entries_model(entries@);
            let mut out = TextMap::new();
            let mut i: usize = 0;
            proof {
                assert(Json::entries_model(entries@.take(0)) =~= Map::empty());
                assert(out@ =~= texts_of(Json::entries_model(entries@.take(0))));
            }
            while i < entries.len()
                invariant
                    i <= entries@.len(),
                    out@ == texts_of(Json::entries_model(entries@.take(i as int))),
                decreases entries@.len() - i,
            {
                let ghost part = Json::entries_model(entries@.take(i as int));
                match entries[i].1.as_str() {
                    Some(s) => {
                        out.insert(entries[i].0.clone(), s.to_owned());
                    },
                    None => {
                        out.insert(entries[i].0.clone(), String::new());
                    },
                }
                proof {
                    let entry = entries@[i as int];
                    assert(entries@.take(i + 1).drop_last() =~= entries@.take(i as int));
                    assert(""@ =~= Seq::<char>::empty()) by {
                        reveal_strlit("");
                    }
                    assert(out@ =~= texts_of(part.insert(entry.0@, entry.1@)));
                }
                i = i + 1;
            }
            assert(entries@.take(i as int) =~= entries@);
            if all_strings(value, entries) {
                assert(out@ =~= members.map_values(|v: JsonView| v->Text_0));
                Some(out)
            } else {
                None
            }
        },
        _ => None,
    }
}

/// The texts of the members; anything but a string counts as empty.
spec fn texts_of(members: Map<Seq<char>, JsonView>) -> Map<Seq<char>, Seq<char>> {
    members.map_values(|v: JsonView| JsonView::text_or_empty(v.text()))
}

/// Whether every member of the object is a string.
fn all_strings(object: &Json, entries: &Vec<(String, Json)>) -> (all: bool)
    requires
        *object == Json::Object(*entries),
    ensures
        all == all_texts(Json::entries_model(entries@)),
{
    let ghost members = Json::entries_model(entries@);
    proof {
        lemma_keys(entries@);
    }
    let mut i: usize = 0;
    while i < entries.len()
        invariant
            i <= entries@.len(),
            *object == Json::Object(*entries),
            members == Json::entries_model(entries@),
            forall|j: int|
                0 <= j < entries@.len() ==> members.contains_key((#[trigger] entries@[j]).0@),
            forall|j: int| 0 <= j < i ==> members[(#[trigger] entries@[j]).0@] is Text,
        decreases entries@.len() - i,
    {
        assert(members.contains_key(entries@[i as int].0@));
        match object.get(entries[i].0.as_str()) {
            Some(v) => match v {
                Json::Text(_) => {},
                _ => {
                    return false;
                },
            },
            None => {},
        }
        i = i + 1;
    }
    true
}

/// The keys of the mapping are those of the entries.
proof fn lemma_keys(entries: Seq<(String, Json)>)
    ensures
        forall|j: int|
            0 <= j < entries.len() ==> Json::entries_model(entries).contains_key(
                (#[trigger] entries[j]).0@,
            ),
        forall|k: Seq<char>| #[trigger]
            Json::entries_model(entries).contains_key(k) ==> exists|j: int|
                0 <= j < entries.len() && (#[trigger] entries[j]).0@ == k,
    decreases entries.len(),
{
    if entries.len() > 0 {
        let shorter = entries.drop_last();
        lemma_keys(shorter);
        assert forall|j: int| 0 <= j < entries.len() implies Json::entries_model(
            entries,
        ).contains_key((#[trigger] entries[j]).0@) by {
            if j < shorter.len() {
                assert(shorter[j] == entries[j]);
            }
        }
        assert forall|k: Seq<char>| #[trigger]
            Json::entries_model(entries).contains_key(k) implies exists|j: int|
            0 <= j < entries.len() && (#[trigger] entries[j]).0@ == k by {
            if k == entries.last().0@ {
                assert(entries[entries.len() - 1].0@ == k);
            } else {
                assert(Json::entries_model(shorter).contains_key(k));
                let j = choose|j: int| 0 <= j < shorter.len() && (#[trigger] shorter[j]).0@ == k;
                assert(entries[j].0@ == k);
            }
        }
    }
}

fn read_list(value: &Json, key: &str, position: usize) -> (out: Option<Vec<String>>)
    ensures
        match out {
            Some(v) => list_at(value@, key@, position as int) == Some(views::each(v@)),
            None => list_at(value@, key@, position as int) is None,
        },
{
    match value.part(key, position) {
        None => {
            let none: Vec<String> = Vec::new();
            assert(views::each(none@) =~= Seq::empty());
            Some(none)
        },
        Some(list) => match list.as_array() {
            Some(items) => read_strings(items),
            None => None,
        },
    }
}

fn read_texts(value: &Json, key: &str, position: usize) -> (out: Option<TextMap>)
    ensures
        match out {
            Some(m) => texts_at(value@, key@, position as int) == Some(m@),
            None => texts_at(value@, key@, position as int) is None,
        },
{
    match value.part(key, position) {
        None => {
            let none = TextMap::new();
            assert(none@ =~= Map::empty());
            Some(none)
        },
        Some(object) => read_text_map(object),
    }
}

impl McpServer {
    /// Reads a server definition.
    pub fn from_value(value: &Json) -> (server: Option<McpServer>)
        ensures
            views::optional(server) == server_of(value@),
    {
        let kind = match value.str_part("type", 0) {
            Some(kind) => kind,
            None => {
                return None;
            },
        };
        if *kind == *"stdio" {
            let command = value.str_part("command", 1);
            let args = read_list(value, "args", 2);
            let env = read_texts(value, "env", 3);
            match (command, args, env) {
                (Some(command), Some(args), Some(env)) => if value.fits(4) {
                    Some(McpServer::Stdio { command: command.to_owned(), args, env })
                } else {
                    None
                },
                _ => None,
            }
        } else if *kind == *"http" || *kind == *"sse" {
            let url = value.str_part("url", 1);
            let headers = read_texts(value, "headers", 2);
            match (url, headers) {
                (Some(url), Some(headers)) => if !value.fits(3) {
                    None
                } else if *kind == *"http" {
                    Some(McpServer::Http { url: url.to_owned(), headers })
                } else {
                    Some(McpServer::Sse { url: url.to_owned(), headers })
                },
                _ => None,
            }
        } else {
            None
        }
    }
}

/// Server definitions by name.
#[verifier::external_body]
#[derive(Debug, PartialEq, Eq)]
pub struct ServerMap {
    map: hashbrown::HashMap<String, McpServer>,
}

/// What a server map holds.
pub uninterp spec fn servers_in(map: ServerMap) -> Map<Seq<char>, McpServer>;

impl View for ServerMap {
    type V = Map<Seq<char>, McpServerView>;

    open spec fn view(&self) -> Map<Seq<char>, McpServerView> {
        servers_in(*self).map_values(|s: McpServer| s@)
    }
}

/// The mapping that a list of named servers stands for.
pub open spec fn servers_model(pairs: Seq<(String, McpServer)>) -> Map<Seq<char>, McpServer>
    decreases pairs.len(),
{
    if pairs.len() == 0 {
        Map::empty()
    } else {
        servers_model(pairs.drop_last()).insert(pairs.last().0@, pairs.last().1)
    }
}

impl ServerMap {
    /// `hashbrown::HashMap::new`.
    #[verifier::external_body]
    fn new() -> (map: ServerMap)
        ensures
            servers_in(map).dom() == Set::<Seq<char>>::empty(),
    {
        ServerMap { map: hashbrown::HashMap::new() }
    }

    /// `hashbrown::HashMap::insert`: sets the value of a key.
    #[verifier::external_body]
    fn insert(&mut self, key: String, server: McpServer)
        ensures
            servers_in(*final(self)) == servers_in(*old(self)).insert(key@, server),
    {
        let _ = self.map.insert(key, server);
    }

    /// `hashbrown::HashMap::get`.
    #[verifier::external_body]
    fn get(&self, key: &str) -> (server: Option<&McpServer>)
        ensures
            match server {
                Some(s) => servers_in(*self).contains_key(key@) && servers_in(*self)[key@] == *s,
                None => !servers_in(*self).contains_key(key@),
            },
    {
        self.map.get(key)
    }

    /// `hashbrown::HashMap::len`.
    #[verifier::external_body]
    fn count(&self) -> (count: usize)
        ensures
            count == servers_in(*self).dom().len(),
    {
        self.map.len()
    }

    /// `hashbrown::HashMap`'s `into_iter`: every entry once, in no particular
    /// order.
    #[verifier::external_body]
    fn into_pairs(self) -> (pairs: Vec<(String, McpServer)>)
        ensures
            keys_differ(pairs@),
            servers_model(pairs@) == servers_in(self),
    {
        self.map.into_iter().collect()
    }

    /// How many servers there are.
    pub fn len(&self) -> (count: usize)
        ensures
            count == self@.dom().len(),
    {
        assert(self@.dom() =~= servers_in(*self).dom());
        self.count()
    }

    /// The server of a name.
    pub fn server(&self, name: &str) -> (server: Option<&McpServer>)
        ensures
            match server {
                Some(s) => self@.contains_key(name@) && self@[name@] == s@,
                None => !self@.contains_key(name@),
            },
    {
        self.get(name)
    }
}

/// The `mcpServers` map of a configuration.
#[derive(Debug, PartialEq, Eq)]
pub struct McpConfig {
    /// Servers by name.
    pub servers: ServerMap,
}

/// Whether every member stands for a server.
pub open spec fn all_servers(members: Map<Seq<char>, JsonView>) -> bool {
    forall|k: Seq<char>| #[trigger] members.contains_key(k) ==> server_of(members[k]) is Some
}

/// The servers that a configuration defines; `None` where it has another shape. An
/// array lists the map alone.
pub open spec fn config_of(value: JsonView) -> Option<Map<Seq<char>, McpServerView>> {
    match value.part("mcpServers"@, 0) {
        Some(JsonView::Object(members)) => if value.fits(1) && all_servers(members) {
            Some(members.map_values(|v: JsonView| server_of(v)->0))
        } else {
            None
        },
        _ => None,
    }
}

/// The message says what is wrong with a value that is no configuration: the
/// `mcpServers` map, or one of its servers, or that there is more than the map.
pub open spec fn is_config_fault(value: JsonView, message: Seq<char>) -> bool {
    match value.part("mcpServers"@, 0) {
        None => message == "missing field `mcpServers`"@,
        Some(JsonView::Object(members)) => if all_servers(members) {
            message == "invalid length of the configuration"@
        } else {
            exists|name: Seq<char>| #[trigger]
                members.contains_key(name) && server_of(members[name]) is None && message
                    == server_fault(members[name])
        },
        Some(_) => message == wrong_type("mcpServers"@),
    }
}

impl McpConfig {
    /// Reads a configuration from a JSON value. The error says what is wrong with
    /// one of another shape.
    pub fn from_value(value: &Json) -> (config: Result<McpConfig, String>)
        ensures
            match config {
                Ok(c) => config_of(value@) == Some(c.servers@),
                Err(message) => config_of(value@) is None && is_config_fault(value@, message@),
            },
    {
        let object = match value.part("mcpServers", 0) {
            Some(object) => object,
            None => {
                return Err("missing field `mcpServers`".to_owned());
            },
        };
        let entries = match object {
            Json::Object(entries) => entries,
            _ => {
                return Err(describe_wrong_type("mcpServers"));
            },
        };
        let ghost members = Json::entries_model(entries@);
        proof {
            lemma_keys(entries@);
        }
        let mut servers = ServerMap::new();
        let mut i: usize = 0;
        while i < entries.len()
            invariant
                i <= entries@.len(),
                *object == Json::Object(*entries),
                members == Json::entries_model(entries@),
                value@.part("mcpServers"@, 0) == Some(JsonView::Object(members)),
                forall|j: int|
                    0 <= j < entries@.len() ==> members.contains_key((#[trigger] entries@[j]).0@),
                forall|k: Seq<char>| #[trigger]
                    servers@.contains_key(k) ==> members.contains_key(k) && server_of(members[k])
                        == Some(servers@[k]),
                forall|j: int|
                    0 <= j < i ==> servers@.contains_key((#[trigger] entries@[j]).0@),
            decreases entries@.len() - i,
        {
            let ghost before = servers@;
            assert(members.contains_key(entries@[i as int].0@));
            match object.get(entries[i].0.as_str()) {
                Some(v) => match McpServer::from_value(v) {
                    Some(server) => {
                        servers.insert(entries[i].0.clone(), server);
                        assert(servers@ =~= before.insert(entries@[i as int].0@, server@));
                    },
                    None => {
                        assert(!all_servers(members));
                        let message = describe_server_fault(v);
                        assert(members.contains_key(entries@[i as int].0@));
                        return Err(message);
                    },
                },
                None => {},
            }
            i = i + 1;
        }
        proof {
            assert forall|k: Seq<char>| #[trigger] members.contains_key(k) implies
                servers@.contains_key(k) by {
                let j = choose|j: int| 0 <= j < entries@.len() && (#[trigger] entries@[j]).0@ == k;
                assert(servers@.contains_key(entries@[j].0@));
            }
            assert(servers@ =~= members.map_values(|v: JsonView| server_of(v)->0));
        }
        if !value.fits(1) {
            return Err("invalid length of the configuration".to_owned());
        }
        Ok(McpConfig { servers })
    }

    /// Reads a configuration from JSON text. Text that is no JSON, and JSON of
    /// another shape, give an MCP error. Of a member that is written twice in
    /// one object the last counts.
    pub fn from_json(text: &str) -> (config: Result<McpConfig, AgentError>)
        ensures
            match (json::json_of_text(text@), config) {
                (Ok(value), Ok(c)) => config_of(value) == Some(c.servers@),
                (Ok(value), Err(AgentError::Mcp(text))) => config_of(value) is None && exists|
                    fault: Seq<char>,
                | #[trigger] is_config_fault(value, fault) && text@ == "invalid mcp config: "@
                    + fault,
                (Err(message), Err(AgentError::Mcp(text))) => text@ == "invalid mcp config: "@
                    + message,
                _ => false,
            },
    {
        match Json::parse(text) {
            Ok(value) => match McpConfig::from_value(&value) {
                Ok(config) => Ok(config),
                Err(fault) => {
                    assert(is_config_fault(value@, fault@));
                    Err(AgentError::Mcp("invalid mcp config: ".to_owned().concat(fault.as_str())))
                },
            },
            Err(message) => Err(
                AgentError::Mcp("invalid mcp config: ".to_owned().concat(message.as_str())),
            ),
        }
    }

    /// Expands the placeholders in every server definition, given the
    /// environment.
    #[must_use]
    pub fn expand_env(self, vars: &TextMap) -> (config: McpConfig)
        ensures
            config.servers@ == self.servers@.map_values(
                |s: McpServerView| expanded_server(s, vars@),
            ),
    {
        let pairs = self.servers.into_pairs();
        let ghost all = pairs@;
        let mut servers = ServerMap::new();
        assert(servers@ =~= expanded_servers(servers_model(all.take(0)), vars@));
        for pair in it: pairs
            invariant
                it.seq() == all,
                servers@ == expanded_servers(servers_model(all.take(it.index())), vars@),
        {
            let ghost part = servers_model(all.take(it.index()));
            let ghost before = servers@;
            let ghost name = pair.0@;
            let ghost server = pair.1@;
            assert(all.take(it.index() + 1).drop_last() =~= all.take(it.index()));
            assert(all[it.index()] == pair);
            let expanded = pair.1.expand_env(vars);
            servers.insert(pair.0, expanded);
            assert(servers@ =~= before.insert(name, expanded_server(server, vars@)));
            assert(servers@ =~= expanded_servers(part.insert(name, all[it.index()].1), vars@));
        }
        assert(all.take(all.len() as int) =~= all);
        assert(servers@ =~= self.servers@.map_values(
            |s: McpServerView| expanded_server(s, vars@),
        ));
        McpConfig { servers }
    }
}

spec fn expanded_servers(
    servers: Map<Seq<char>, McpServer>,
    vars: Map<Seq<char>, Seq<char>>,
) -> Map<Seq<char>, McpServerView> {
    servers.map_values(|s: McpServer| expanded_server(s@, vars))
}

/// A tool advertised by an MCP server.
#[derive(Debug)]
pub struct McpTool {
    /// Tool name as the server knows it.
    pub name: String,
    /// Tool description.
    pub description: String,
    /// JSON Schema for the arguments.
    pub input_schema: Json,
}

/// The name under which a server's tool is offered.
pub open spec fn namespaced(server: Seq<char>, tool: Seq<char>) -> Seq<char> {
    "mcp__"@ + server + "__"@ + tool
}

/// The name under which a server's tool is offered: `mcp__<server>__<tool>`.
pub fn namespaced_name(server: &str, tool: &str) -> (name: String)
    ensures
        name@ == namespaced(server@, tool@),
{
    let mut name = "mcp__".to_owned();
    name.append(server);
    name.append("__");
    name.append(tool);
    name
}

/// The tools of one connected server.
pub struct McpToolSet {
    /// Server name.
    pub server: String,
    /// Its tools, as it advertises them.
    pub tools: Vec<McpTool>,
}

/// The definition under which a tool is offered.
pub open spec fn offered(server: Seq<char>, tool: McpTool) -> ToolDefView {
    ToolDefView {
        name: namespaced(server, tool.name@),
        description: tool.description@,
        parameters: tool.input_schema@,
        strict: false,
        cache: false,
    }
}

impl McpToolSet {
    /// The names under which the tools are offered.
    #[must_use]
    pub fn tool_names(&self) -> (names: Vec<String>)
        ensures
            names@.len() == self.tools@.len(),
            forall|i: int|
                0 <= i < names@.len() ==> (#[trigger] names@[i])@ == namespaced(
                    self.server@,
                    self.tools@[i].name@,
                ),
    {
        let mut names: Vec<String> = Vec::new();
        let mut i: usize = 0;
        while i < self.tools.len()
            invariant
                i <= self.tools@.len(),
                names@.len() == i,
                forall|j: int|
                    0 <= j < i ==> (#[trigger] names@[j])@ == namespaced(
                        self.server@,
                        self.tools@[j].name@,
                    ),
            decreases self.tools@.len() - i,
        {
            names.push(namespaced_name(self.server.as_str(), self.tools[i].name.as_str()));
            i = i + 1;
        }
        names
    }

    /// The tools as definitions, each with the name by which the server is
    /// called.
    pub fn into_tools(self) -> (tools: Vec<(ToolDef, String)>)
        ensures
            tools@.len() == self.tools@.len(),
            forall|i: int|
                0 <= i < tools@.len() ==> (#[trigger] tools@[i]).0@ == offered(
                    self.server@,
                    self.tools@[i],
                ) && tools@[i].1@ == self.tools@[i].name@,
    {
        let ghost all = self.tools@;
        let ghost server = self.server@;
        let name_of = self.server;
        let advertised = self.tools;
        let mut tools: Vec<(ToolDef, String)> = Vec::new();
        for tool in it: advertised
            invariant
                it.seq() == all,
                name_of@ == server,
                tools@.len() == it.index(),
                forall|j: int|
                    0 <= j < tools@.len() ==> (#[trigger] tools@[j]).0@ == offered(server, all[j])
                        && tools@[j].1@ == all[j].name@,
        {
            assert(all[it.index()] == tool);
            let name = namespaced_name(name_of.as_str(), tool.name.as_str());
            tools.push((ToolDef::new(name, tool.description, tool.input_schema), tool.name));
        }
        tools
    }
}

/// Two tools of one server are offered under two names.
pub proof fn tools_of_a_server_keep_apart(server: Seq<char>, a: Seq<char>, b: Seq<char>)
    requires
        namespaced(server, a) == namespaced(server, b),
    ensures
        a == b,
{
    let head = "mcp__"@ + server + "__"@;
    assert(a =~= (head + a).skip(head.len() as int));
    assert(b =~= (head + b).skip(head.len() as int));
}

proof fn lemma_server_kinds_differ()
    ensures
        "stdio"@ != "http"@,
        "stdio"@ != "sse"@,
        "http"@ != "sse"@,
{
    reveal_strlit("stdio");
    reveal_strlit("http");
    reveal_strlit("sse");
    assert("stdio"@.len() == 5);
    assert("http"@.len() == 4);
    assert("sse"@.len() == 3);
}


proof fn lemma_first_at(text: Seq<char>, needle: Seq<char>, from: int, at: int)
    requires
        0 <= from <= at,
        text::stands_at(text, needle, at),
        forall|j: int| from <= j < at ==> !text::stands_at(text, needle, j),
    ensures
        first_from(text, needle, from) == Some(at),
    decreases at - from,
{
    if from < at {
        lemma_first_at(text, needle, from + 1, at);
    }
}

/// Where a text that holds no `${` is followed by one, that is the first.
proof fn lemma_first_opening(before: Seq<char>, after: Seq<char>)
    requires
        !text::holds_text(before, "${"@),
    ensures
        first_from(before + "${"@ + after, "${"@, 0) == Some(before.len() as int),
{
    reveal_strlit("${");
    let n: int = before.len() as int;
    let whole = before + "${"@ + after;
    assert(whole.subrange(n, n + 2) =~= "${"@);
    assert forall|j: int| 0 <= j < n implies !text::stands_at(whole, "${"@, j) by {
        if text::stands_at(whole, "${"@, j) {
            let seen = whole.subrange(j, j + 2);
            assert(seen[0] == whole[j] && seen[1] == whole[j + 1]);
            if j + 1 < n {
                assert(before.subrange(j, j + 2) =~= "${"@);
                assert(text::stands_at(before, "${"@, j));
            } else {
                assert(whole[j + 1] == '$');
                assert(seen[1] == '{');
            }
        }
    }
    lemma_first_at(whole, "${"@, 0, n);
}

proof fn lemma_first_closing(expr: Seq<char>, after: Seq<char>)
    requires
        forall|i: int| 0 <= i < expr.len() ==> (#[trigger] expr[i]) != '}',
    ensures
        first_from(expr + "}"@ + after, "}"@, 0) == Some(expr.len() as int),
{
    reveal_strlit("}");
    let n: int = expr.len() as int;
    let whole = expr + "}"@ + after;
    assert(whole.subrange(n, n + 1) =~= "}"@);
    assert forall|j: int| 0 <= j < n implies !text::stands_at(whole, "}"@, j) by {
        if text::stands_at(whole, "}"@, j) {
            assert(whole.subrange(j, j + 1)[0] == whole[j]);
            assert(whole[j] == expr[j]);
        }
    }
    lemma_first_at(whole, "}"@, 0, n);
}

proof fn lemma_no_closing(after: Seq<char>)
    requires
        forall|i: int| 0 <= i < after.len() ==> (#[trigger] after[i]) != '}',
    ensures
        first_from(after, "}"@, 0) is None,
{
    reveal_strlit("}");
    assert forall|j: int| 0 <= j implies !text::stands_at(after, "}"@, j) by {
        if text::stands_at(after, "}"@, j) {
            assert(after.subrange(j, j + 1)[0] == after[j]);
        }
    }
    lemma_first_from(after, "}"@, 0, None);
}

/// A placeholder is replaced by what it stands for, and the text before it stays; the
/// text behind it is expanded on its own, so what was put in never is. A `${` that is
/// never closed stays.
pub proof fn a_placeholder_is_replaced(
    before: Seq<char>,
    expr: Seq<char>,
    after: Seq<char>,
    env: Map<Seq<char>, Seq<char>>,
)
    requires
        !text::holds_text(before, "${"@),
        forall|i: int| 0 <= i < expr.len() ==> (#[trigger] expr[i]) != '}',
    ensures
        expanded(before + "${"@ + (expr + "}"@ + after), env) == before + substituted(expr, env)
            + expanded(after, env),
        expanded(before + "${"@ + expr, env) == before + "${"@ + expanded(expr, env),
{
    reveal_strlit("${");
    reveal_strlit("}");
    let n: int = before.len() as int;
    let k: int = expr.len() as int;
    let rest = expr + "}"@ + after;
    let whole = before + "${"@ + rest;
    lemma_first_opening(before, rest);
    lemma_first_closing(expr, after);
    assert(whole.skip(n + "${"@.len()) =~= rest);
    assert(whole.take(n) =~= before);
    assert(rest.take(k) =~= expr);
    assert(rest.skip(k + "}"@.len()) =~= after);
    let open = before + "${"@ + expr;
    lemma_first_opening(before, expr);
    lemma_no_closing(expr);
    assert(open.skip(n + "${"@.len()) =~= expr);
    assert(open.take(n) =~= before);
}

/// A placeholder stands for its variable where that is set, and otherwise for its
/// default, which is empty where none is given.
pub proof fn a_placeholder_stands_for_its_variable(
    name: Seq<char>,
    default: Seq<char>,
    env: Map<Seq<char>, Seq<char>>,
)
    requires
        !text::holds_text(name, ":-"@),
    ensures
        env.contains_key(name) ==> substituted(name, env) == env[name],
        !env.contains_key(name) ==> substituted(name, env).len() == 0,
        env.contains_key(name) ==> substituted(name + ":-"@ + default, env) == env[name],
        !env.contains_key(name) ==> substituted(name + ":-"@ + default, env) == default,
{
    reveal_strlit(":-");
    let n: int = name.len() as int;
    let whole = name + ":-"@ + default;
    lemma_first_from(name, ":-"@, 0, None);
    assert(whole.subrange(n, n + 2) =~= ":-"@);
    assert forall|j: int| 0 <= j < n implies !text::stands_at(whole, ":-"@, j) by {
        if text::stands_at(whole, ":-"@, j) {
            let seen = whole.subrange(j, j + 2);
            assert(seen[0] == whole[j] && seen[1] == whole[j + 1]);
            if j + 1 < n {
                assert(name.subrange(j, j + 2) =~= ":-"@);
                assert(text::stands_at(name, ":-"@, j));
            } else {
                assert(whole[j + 1] == ':');
                assert(seen[1] == '-');
            }
        }
    }
    lemma_first_at(whole, ":-"@, 0, n);
    assert(whole.take(n) =~= name);
    assert(whole.skip(n + ":-"@.len()) =~= default);
}

/// Every text of a server definition is expanded, in its place; the names of variables
/// and of headers stay, and so does the kind of server.
pub proof fn every_text_of_a_server_is_expanded(
    server: McpServerView,
    vars: Map<Seq<char>, Seq<char>>,
    i: int,
    name: Seq<char>,
)
    ensures
        match (server, expanded_server(server, vars)) {
            (
                McpServerView::Stdio { command, args, env },
                McpServerView::Stdio { command: c, args: a, env: e },
            ) => {
                &&& c == expanded(command, vars)
                &&& a.len() == args.len()
                &&& 0 <= i < args.len() ==> a[i] == expanded(args[i], vars)
                &&& e.contains_key(name) <==> env.contains_key(name)
                &&& env.contains_key(name) ==> e[name] == expanded(env[name], vars)
            },
            (
                McpServerView::Http { url, headers },
                McpServerView::Http { url: u, headers: h },
            ) => {
                &&& u == expanded(url, vars)
                &&& h.contains_key(name) <==> headers.contains_key(name)
                &&& headers.contains_key(name) ==> h[name] == expanded(headers[name], vars)
            },
            (
                McpServerView::Sse { url, headers },
                McpServerView::Sse { url: u, headers: h },
            ) => {
                &&& u == expanded(url, vars)
                &&& h.contains_key(name) <==> headers.contains_key(name)
                &&& headers.contains_key(name) ==> h[name] == expanded(headers[name], vars)
            },
            _ => false,
        },
{
}

/// A list of strings is read where every element is one, each in its place.
pub proof fn a_list_of_strings_is_read_in_order(items: Seq<JsonView>)
    ensures
        strings_of(items) is Some <==> forall|i: int|
            0 <= i < items.len() ==> #[trigger] items[i] is Text,
        strings_of(items) matches Some(texts) ==> texts.len() == items.len() && forall|i: int|
            0 <= i < items.len() ==> #[trigger] items[i] == JsonView::Text(texts[i]),
    decreases items.len(),
{
    if items.len() > 0 {
        let shorter = items.drop_last();
        a_list_of_strings_is_read_in_order(shorter);
        if forall|i: int| 0 <= i < items.len() ==> #[trigger] items[i] is Text {
            assert forall|i: int| 0 <= i < shorter.len() implies #[trigger] shorter[i] is Text by {
                assert(items[i] is Text);
            }
            assert(items[items.len() - 1] is Text);
        }
        if strings_of(items) is Some {
            let texts = strings_of(items)->0;
            let before = strings_of(shorter)->0;
            assert forall|i: int| 0 <= i < items.len() implies #[trigger] items[i]
                == JsonView::Text(texts[i]) by {
                if i < shorter.len() {
                    assert(shorter[i] == items[i]);
                    assert(texts[i] == before[i]);
                }
            }
        }
    }
}

/// The texts are those of an object of strings, each under its key.
pub open spec fn reads_texts(object: JsonView, texts: Map<Seq<char>, Seq<char>>) -> bool {
    &&& object is Object
    &&& forall|k: Seq<char>|
        object->Object_0.contains_key(k) <==> #[trigger] texts.contains_key(k)
    &&& forall|k: Seq<char>| #[trigger]
        texts.contains_key(k) ==> object->Object_0[k] == JsonView::Text(texts[k])
}

proof fn lemma_texts_read(object: JsonView, texts: Map<Seq<char>, Seq<char>>)
    requires
        reads_texts(object, texts),
    ensures
        text_map_of(object) == Some(texts),
{
    let members = object->Object_0;
    assert forall|k: Seq<char>| #[trigger] members.contains_key(k) implies members[k] is Text by {
        assert(texts.contains_key(k));
    }
    assert(members.map_values(|v: JsonView| v->Text_0) =~= texts) by {
        assert forall|k: Seq<char>| members.contains_key(k) <==> texts.contains_key(k) by {
            assert(members.contains_key(k) <==> texts.contains_key(k));
        }
    }
}

/// A server definition is read by the names of its members, and one with another
/// `type` is none. Arguments, variables and headers that are left out are empty.
pub proof fn a_server_is_read_by_name(
    value: JsonView,
    head: Seq<char>,
    list: Seq<JsonView>,
    args: Seq<Seq<char>>,
    object: JsonView,
    texts: Map<Seq<char>, Seq<char>>,
)
    requires
        value is Object,
        list.len() == args.len(),
        forall|i: int| 0 <= i < list.len() ==> #[trigger] list[i] == JsonView::Text(args[i]),
        reads_texts(object, texts),
    ensures
        value.text_at("type"@) == Some("stdio"@) && value.text_at("command"@) == Some(head)
            && value.member("args"@) == Some(JsonView::Array(list)) && value.member("env"@)
            == Some(object) ==> server_of(value) == Some(
            McpServerView::Stdio { command: head, args, env: texts },
        ),
        value.text_at("type"@) == Some("stdio"@) && value.text_at("command"@) == Some(head)
            && value.member("args"@) is None && value.member("env"@) is None ==> server_of(value)
            == Some(
            McpServerView::Stdio { command: head, args: Seq::empty(), env: Map::empty() },
        ),
        value.text_at("type"@) == Some("stdio"@) && value.text_at("command"@) is None
            ==> server_of(value) is None,
        value.text_at("type"@) == Some("http"@) && value.text_at("url"@) == Some(head)
            && value.member("headers"@) == Some(object) ==> server_of(value) == Some(
            McpServerView::Http { url: head, headers: texts },
        ),
        value.text_at("type"@) == Some("http"@) && value.text_at("url"@) == Some(head)
            && value.member("headers"@) is None ==> server_of(value) == Some(
            McpServerView::Http { url: head, headers: Map::empty() },
        ),
        value.text_at("type"@) == Some("sse"@) && value.text_at("url"@) == Some(head)
            && value.member("headers"@) == Some(object) ==> server_of(value) == Some(
            McpServerView::Sse { url: head, headers: texts },
        ),
        value.text_at("type"@) == Some("sse"@) && value.text_at("url"@) == Some(head)
            && value.member("headers"@) is None ==> server_of(value) == Some(
            McpServerView::Sse { url: head, headers: Map::empty() },
        ),
        (value.text_at("type"@) == Some("http"@) || value.text_at("type"@) == Some("sse"@))
            && value.text_at("url"@) is None ==> server_of(value) is None,
        value.text_at("type"@) is None ==> server_of(value) is None,
        (value.text_at("type"@) matches Some(kind) && kind != "stdio"@ && kind != "http"@ && kind
            != "sse"@) ==> server_of(value) is None,
{
    lemma_server_kinds_differ();
    lemma_texts_read(object, texts);
    a_list_of_strings_is_read_in_order(list);
    assert forall|i: int| 0 <= i < list.len() implies #[trigger] list[i] is Text by {
        assert(list[i] == JsonView::Text(args[i]));
    }
    let read = strings_of(list)->0;
    assert forall|i: int| 0 <= i < list.len() implies read[i] == args[i] by {
        assert(list[i] == JsonView::Text(args[i]));
    }
    assert(read =~= args);
}

/// A server definition that lists its parts is read by their positions, and must hold
/// no more of them than there are.
pub proof fn a_listed_server_is_read_by_position(
    parts: Seq<JsonView>,
    head: Seq<char>,
    object: JsonView,
    texts: Map<Seq<char>, Seq<char>>,
)
    requires
        parts.len() >= 3,
        parts[1] == JsonView::Text(head),
        reads_texts(object, texts),
    ensures
        parts[0] == JsonView::Text("http"@) && parts[2] == object && parts.len() == 3 ==> server_of(
            JsonView::Array(parts),
        ) == Some(McpServerView::Http { url: head, headers: texts }),
        parts[0] == JsonView::Text("sse"@) && parts[2] == object && parts.len() == 3 ==> server_of(
            JsonView::Array(parts),
        ) == Some(McpServerView::Sse { url: head, headers: texts }),
        parts[0] == JsonView::Text("stdio"@) && parts[2] == JsonView::Array(Seq::empty())
            && parts.len() == 4 && parts[3] == object ==> server_of(JsonView::Array(parts)) == Some(
            McpServerView::Stdio { command: head, args: Seq::empty(), env: texts },
        ),
        parts.len() > 4 ==> server_of(JsonView::Array(parts)) is None,
        parts.len() > 3 && parts[0] != JsonView::Text("stdio"@) ==> server_of(
            JsonView::Array(parts),
        ) is None,
{
    lemma_server_kinds_differ();
    lemma_texts_read(object, texts);
    assert(strings_of(Seq::empty()) == Some(Seq::<Seq<char>>::empty()));
}

/// A configuration defines exactly the servers that its map holds, each under its
/// name, and is none where one of them is none.
pub proof fn a_configuration_defines_its_servers(
    value: JsonView,
    members: Map<Seq<char>, JsonView>,
    name: Seq<char>,
)
    requires
        value is Object,
        value.member("mcpServers"@) == Some(JsonView::Object(members)),
    ensures
        members.contains_key(name) && server_of(members[name]) is None ==> config_of(value) is None,
        (forall|k: Seq<char>| #[trigger]
            members.contains_key(k) ==> server_of(members[k]) is Some) ==> config_of(value) is Some,
        config_of(value) matches Some(servers) ==> {
            &&& servers.contains_key(name) <==> members.contains_key(name)
            &&& members.contains_key(name) ==> server_of(members[name]) == Some(servers[name])
        },
{
}

/// A tool is offered under a name that tells its server and the name that it has
/// there, with its own description and parameters.
pub proof fn a_server_tool_is_offered_as_it_is(server: Seq<char>, tool: McpTool)
    ensures
        offered(server, tool).name == "mcp__"@ + server + "__"@ + tool.name@,
        namespaced(server, tool.name@) == "mcp__"@ + server + "__"@ + tool.name@,
        offered(server, tool).description == tool.description@,
        offered(server, tool).parameters == tool.input_schema@,
        !offered(server, tool).strict,
        !offered(server, tool).cache,
{
}

} // verus!
