//! Tools: what they are called and take, where they are kept, and what the file tools do.

use crate::json;
use crate::json::Parameter;
use crate::model::{ToolResult, ToolResultView, ToolSpec, ToolSpecView};
use crate::provider::{ToolDefinition, ToolDefinitionView};
use crate::text;
use crate::text::IntoText;
use crate::views;
use vstd::prelude::*;

verus! {

broadcast use crate::views::group_views;

// ==================== Errors ====================

/// Why a tool failed.
#[derive(Debug, PartialEq, Eq)]
pub enum ToolError {
    /// The arguments are not valid.
    Arguments(String),
    /// Something went wrong on the way.
    Execution(String),
}

impl ToolError {
    /// The error in words.
    pub open spec fn words(self) -> Seq<char> {
        match self {
            ToolError::Arguments(what) => "invalid arguments: "@ + what@,
            ToolError::Execution(what) => what@,
        }
    }

    /// The error in words.
    pub fn message(&self) -> (words: String)
        ensures
            words@ == self.words(),
    {
        match self {
            ToolError::Arguments(what) => text::joined("invalid arguments: ", what.as_str()),
            ToolError::Execution(what) => what.clone(),
        }
    }
}

// ==================== Arguments ====================

/// The arguments that a parser read, or the error of the tool where it read none.
pub fn parsed_arguments<T>(parsed: Result<T, String>, tool_name: &str) -> (arguments: Result<
    T,
    ToolError,
>)
    ensures
        match parsed {
            Ok(value) => arguments == Ok::<T, ToolError>(value),
            Err(why) => arguments matches Err(ToolError::Arguments(what)) && what@ == tool_name@
                + ": "@ + why@,
        },
{
    match parsed {
        Ok(value) => Ok(value),
        Err(why) => Err(ToolError::Arguments(text::joined3(tool_name, ": ", why.as_str()))),
    }
}

/// The arguments that a text writes down as a JSON object, or the error of the tool where the text
/// is none.
pub fn parse_arguments(arguments: &str, tool_name: &str) -> (parsed: Result<
    serde_json::Value,
    ToolError,
>)
    ensures
        match json::parsed_object(arguments@) {
            Ok(members) => parsed matches Ok(v) && json::json(v) == json::Json::Object(members),
            Err(why) => parsed matches Err(ToolError::Arguments(what)) && what@ == tool_name@
                + ": "@ + why,
        },
{
    parsed_arguments(json::parse_object(arguments), tool_name)
}

/// The schema that is shown to a model, of the schema that was generated for a type.
pub fn schema_for(generated: serde_json::Value) -> (schema: serde_json::Value)
    ensures
        json::json(schema) == json::cleaned(json::json(generated)),
{
    let mut schema = generated;
    json::clean_schema(&mut schema);
    schema
}

// ==================== Tool ====================

/// What every tool has. Names tell tools apart.
pub trait Tool {
    /// The name of the tool.
    fn name(&self) -> &str;

    /// What the tool is good for.
    fn description(&self) -> &str;

    /// The schema of what the tool takes.
    fn parameters(&self) -> serde_json::Value;
}

/// The tool says of itself what `shown` says of it.
pub open spec fn says<T: Tool>(tool: T, shown: ToolSpecView) -> bool {
    &&& exists|name: &str| #[trigger] call_ensures(T::name, (&tool,), name) && name@ == shown.name
    &&& exists|description: &str| #[trigger]
        call_ensures(T::description, (&tool,), description) && description@ == shown.description
    &&& exists|schema: serde_json::Value| #[trigger]
        call_ensures(T::parameters, (&tool,), schema) && json::json(schema) == shown.input_schema
}

/// The tool as it is shown to a model.
pub fn spec_of<T: Tool>(tool: &T) -> (shown: ToolSpec)
    ensures
        says(*tool, shown@),
{
    ToolSpec::new(tool.name(), tool.description(), tool.parameters())
}

/// A tool definition as it is shown to a chat completion service.
pub open spec fn definition_of(shown: ToolSpecView) -> ToolDefinitionView {
    ToolDefinitionView {
        name: shown.name,
        description: Some(shown.description),
        parameters: shown.input_schema,
    }
}

// ==================== Registry ====================

/// A tool and how it is shown.
pub struct Entry<T> {
    pub shown: ToolSpecView,
    pub tool: T,
}

/// Where the tool of the given name stands: the first place, where there are several.
pub open spec fn place<T>(entries: Seq<Entry<T>>, name: Seq<char>) -> Option<int>
    decreases entries.len(),
{
    if entries.len() == 0 {
        None
    } else if entries[0].shown.name == name {
        Some(0)
    } else {
        match place(entries.skip(1), name) {
            Some(i) => Some(i + 1),
            None => None,
        }
    }
}

/// No two tools have the same name.
pub open spec fn distinct_names<T>(entries: Seq<Entry<T>>) -> bool {
    forall|i: int, j: int|
        0 <= i < j < entries.len() ==> (#[trigger] entries[i]).shown.name != (
        #[trigger] entries[j]).shown.name
}

/// The tools with one more. It takes the place of the one of its name, where there is one.
pub open spec fn registered<T>(entries: Seq<Entry<T>>, entry: Entry<T>) -> Seq<Entry<T>> {
    match place(entries, entry.shown.name) {
        Some(i) => entries.update(i, entry),
        None => entries.push(entry),
    }
}

/// The tool of the given name.
pub open spec fn lookup<T>(entries: Seq<Entry<T>>, name: Seq<char>) -> Option<T> {
    match place(entries, name) {
        Some(i) => Some(entries[i].tool),
        None => None,
    }
}

/// How the tools are shown.
pub open spec fn shown<T>(entries: Seq<Entry<T>>) -> Seq<ToolSpecView> {
    entries.map_values(|e: Entry<T>| e.shown)
}

/// The place of a name is where a tool has it, and no tool before has it.
proof fn lemma_place<T>(entries: Seq<Entry<T>>, name: Seq<char>)
    ensures
        match place(entries, name) {
            Some(i) => 0 <= i < entries.len() && entries[i].shown.name == name && forall|j: int|
                0 <= j < i ==> (#[trigger] entries[j]).shown.name != name,
            None => forall|j: int| 0 <= j < entries.len() ==> (#[trigger] entries[j]).shown.name
                != name,
        },
    decreases entries.len(),
{
    if entries.len() > 0 && entries[0].shown.name != name {
        let rest = entries.skip(1);
        lemma_place(rest, name);
        match place(rest, name) {
            Some(i) => {
                assert forall|j: int| 0 <= j < i + 1 implies (#[trigger] entries[j]).shown.name
                    != name by {
                    if j > 0 {
                        assert(entries[j] == rest[j - 1]);
                    }
                }
            },
            None => {
                assert forall|j: int| 0 <= j < entries.len() implies (
                #[trigger] entries[j]).shown.name != name by {
                    if j > 0 {
                        assert(entries[j] == rest[j - 1]);
                    }
                }
            },
        }
    }
}

/// A place where a tool has the name, with no such tool before it, is the place of the name.
proof fn lemma_place_is<T>(entries: Seq<Entry<T>>, name: Seq<char>, i: int)
    requires
        0 <= i < entries.len(),
        entries[i].shown.name == name,
        forall|j: int| 0 <= j < i ==> (#[trigger] entries[j]).shown.name != name,
    ensures
        place(entries, name) == Some(i),
{
    lemma_place(entries, name);
}

/// There is a tool of the given name among those that are shown.
pub open spec fn offers(shown: Seq<ToolSpecView>, name: Seq<char>) -> bool {
    exists|i: int| 0 <= i < shown.len() && (#[trigger] shown[i]).name == name
}

/// A tool is found if and only if it is shown.
pub proof fn law_what_is_shown_is_found<T>(entries: Seq<Entry<T>>, name: Seq<char>)
    ensures
        lookup(entries, name) is Some <==> offers(shown(entries), name),
{
    lemma_place(entries, name);
    let all = shown(entries);
    match place(entries, name) {
        Some(i) => {
            assert(all[i].name == name);
        },
        None => {
            assert forall|i: int| 0 <= i < all.len() implies (#[trigger] all[i]).name != name by {
                assert(all[i] == entries[i].shown);
            }
        },
    }
}

/// A tool and its definition.
struct Registered<T> {
    spec: ToolSpec,
    tool: T,
}

impl<T> View for Registered<T> {
    type V = Entry<T>;

    closed spec fn view(&self) -> Entry<T> {
        Entry { shown: self.spec@, tool: self.tool }
    }
}

/// The tools that are on offer, at most one of each name.
pub struct ToolRegistry<T> {
    tools: Vec<Registered<T>>,
}

impl<T> View for ToolRegistry<T> {
    type V = Seq<Entry<T>>;

    closed spec fn view(&self) -> Seq<Entry<T>> {
        views::of(self.tools@)
    }
}

impl<T> Default for ToolRegistry<T> {
    fn default() -> (registry: Self)
        ensures
            registry@ == Seq::<Entry<T>>::empty(),
            registry.well_formed(),
    {
        ToolRegistry::new()
    }
}

impl<T> ToolRegistry<T> {
    /// No two tools have the same name.
    pub open spec fn well_formed(&self) -> bool {
        distinct_names(self@)
    }

    /// A registry without tools.
    pub fn new() -> (registry: Self)
        ensures
            registry@ == Seq::<Entry<T>>::empty(),
            registry.well_formed(),
    {
        ToolRegistry { tools: Vec::new() }
    }

    /// Where the tool of the given name stands.
    fn find(&self, name: &str) -> (found: Option<usize>)
        ensures
            match found {
                Some(i) => place(self@, name@) == Some(i as int) && i < self@.len(),
                None => place(self@, name@) is None,
            },
    {
        for i in 0..self.tools.len()
            invariant
                forall|j: int| 0 <= j < i ==> (#[trigger] self@[j]).shown.name != name@,
        {
            if text::same_text(self.tools[i].spec.name.as_str(), name) {
                proof {
                    lemma_place_is(self@, name@, i as int);
                }
                return Some(i);
            }
        }
        proof {
            lemma_place(self@, name@);
        }
        None
    }

    /// Adds a tool, shown as it says of itself. It takes the place of the one of its name, where
    /// there is one.
    pub fn register(&mut self, tool: T) where T: Tool
        ensures
            exists|said: ToolSpecView| #[trigger]
                says(tool, said) && final(self)@ == registered(
                    old(self)@,
                    (Entry { shown: said, tool }),
                ),
            old(self).well_formed() ==> final(self).well_formed(),
    {
        let spec = spec_of(&tool);
        self.add(spec, tool);
    }

    /// Adds a tool, shown as `spec` says. It takes the place of the one of its name, where there
    /// is one.
    pub fn add(&mut self, spec: ToolSpec, tool: T)
        ensures
            final(self)@ == registered(old(self)@, (Entry { shown: spec@, tool })),
            old(self).well_formed() ==> final(self).well_formed(),
    {
        let found: Option<usize> = self.find(spec.name.as_str());
        let ghost entry = Entry { shown: spec@, tool };
        let ghost before = self@;
        proof {
            lemma_place(self@, spec.name@);
        }
        match found {
            Some(i) => {
                self.tools.set(i, Registered { spec, tool });
                assert(self@ =~= before.update(i as int, entry));
            },
            None => {
                self.tools.push(Registered { spec, tool });
            },
        }
    }

    /// The tool of the given name.
    pub fn get(&self, name: &str) -> (tool: Option<&T>)
        ensures
            match tool {
                Some(t) => lookup(self@, name@) == Some(*t),
                None => lookup(self@, name@) is None,
            },
    {
        match self.find(name) {
            Some(i) => Some(&self.tools[i].tool),
            None => None,
        }
    }

    /// Whether there is a tool of the given name.
    pub fn contains(&self, name: &str) -> (b: bool)
        ensures
            b == (lookup(self@, name@) is Some),
    {
        match self.find(name) {
            Some(_) => true,
            None => false,
        }
    }

    /// How many tools there are.
    pub fn len(&self) -> (n: usize)
        ensures
            n == self@.len(),
    {
        self.tools.len()
    }

    /// Whether there are no tools.
    pub fn is_empty(&self) -> (b: bool)
        ensures
            b == (self@.len() == 0),
    {
        self.tools.len() == 0
    }

    /// All tools, in the order in which their names came in.
    pub fn list(&self) -> (tools: Vec<&T>)
        ensures
            tools@ == self@.map_values(|e: Entry<T>| &e.tool),
    {
        let mut tools: Vec<&T> = Vec::new();
        for i in 0..self.tools.len()
            invariant
                tools@ == self@.take(i as int).map_values(|e: Entry<T>| &e.tool),
        {
            tools.push(&self.tools[i].tool);
            assert(tools@ =~= self@.take(i + 1).map_values(|e: Entry<T>| &e.tool));
        }
        assert(self@.take(self@.len() as int) =~= self@);
        tools
    }

    /// All tools as they are shown to a model.
    pub fn specs(&self) -> (specs: Vec<ToolSpec>)
        ensures
            views::of(specs@) == shown(self@),
    {
        let mut specs: Vec<ToolSpec> = Vec::new();
        for i in 0..self.tools.len()
            invariant
                views::of(specs@) == shown(self@.take(i as int)),
        {
            specs.push(self.tools[i].spec.clone());
            assert(views::of(specs@) =~= shown(self@.take(i + 1)));
        }
        assert(self@.take(self@.len() as int) =~= self@);
        specs
    }

    /// All tools as they are shown to a chat completion service.
    pub fn to_openai_tools(&self) -> (definitions: Vec<ToolDefinition>)
        ensures
            views::of(definitions@) == shown(self@).map_values(
                |s: ToolSpecView| definition_of(s),
            ),
    {
        let mut definitions: Vec<ToolDefinition> = Vec::new();
        let ghost all = shown(self@);
        for i in 0..self.tools.len()
            invariant
                all == shown(self@),
                views::of(definitions@) == all.take(i as int).map_values(
                    |s: ToolSpecView| definition_of(s),
                ),
        {
            let spec = &self.tools[i].spec;
            definitions.push(
                ToolDefinition::new(&spec.name, spec.input_schema.clone()).with_description(
                    &spec.description,
                ),
            );
            assert(all[i as int] == spec@);
            assert(views::of(definitions@) =~= all.take(i + 1).map_values(
                |s: ToolSpecView| definition_of(s),
            ));
        }
        assert(all.take(all.len() as int) =~= all);
        definitions
    }

    /// The result of a tool call, of what the tool returned. Where there is no such tool, nothing
    /// was returned, and the result says so.
    pub fn execute<I: IntoText>(
        &self,
        tool_call_id: I,
        tool_name: &str,
        returned: Result<String, ToolError>,
    ) -> (result: ToolResult)
        ensures
            result@ == (ToolResultView {
                tool_call_id: tool_call_id.text(),
                tool_name: tool_name@,
                content: if lookup(self@, tool_name@) is None {
                    "unknown tool: "@ + tool_name@
                } else {
                    match returned {
                        Ok(content) => content@,
                        Err(e) => e.words(),
                    }
                },
                is_error: lookup(self@, tool_name@) is None || returned is Err,
            }),
    {
        if !self.contains(tool_name) {
            return ToolResult::error(
                tool_call_id,
                tool_name,
                text::joined("unknown tool: ", tool_name),
            );
        }
        match returned {
            Ok(content) => ToolResult::new(tool_call_id, tool_name, content),
            Err(e) => ToolResult::error(tool_call_id, tool_name, e.message()),
        }
    }
}

/// A tool that was registered is found under its name, and the tools of other names are found as
/// before.
pub proof fn law_registering_is_seen_under_its_name_only<T>(
    entries: Seq<Entry<T>>,
    entry: Entry<T>,
    name: Seq<char>,
)
    ensures
        lookup(registered(entries, entry), entry.shown.name) == Some(entry.tool),
        name != entry.shown.name ==> lookup(registered(entries, entry), name) == lookup(
            entries,
            name,
        ),
{
    let after = registered(entries, entry);
    let own = entry.shown.name;
    lemma_place(entries, own);
    lemma_place(entries, name);
    lemma_place(after, name);
    match place(entries, own) {
        Some(i) => {
            lemma_place_is(after, own, i);
        },
        None => {
            lemma_place_is(after, own, entries.len() as int);
        },
    }
    if name != own {
        match place(entries, name) {
            Some(k) => {
                assert(after[k] == entries[k]);
                assert forall|j: int| 0 <= j < k implies (#[trigger] after[j]).shown.name
                    != name by {
                    assert(entries[j].shown.name != name);
                }
                lemma_place_is(after, name, k);
            },
            None => {
                if place(after, name) is Some {
                    let k = place(after, name)->0;
                    if k < entries.len() {
                        assert(entries[k].shown.name != name);
                    }
                }
            },
        }
    }
}

/// Registering a name that is taken does not make the registry larger; a new name makes it larger
/// by one.
pub proof fn law_registering_replaces_the_same_name<T>(entries: Seq<Entry<T>>, entry: Entry<T>)
    ensures
        registered(entries, entry).len() == entries.len() + (if lookup(
            entries,
            entry.shown.name,
        ) is Some {
            0int
        } else {
            1
        }),
{
    lemma_place(entries, entry.shown.name);
}

/// A tool is found if and only if some tool has the name, and then it is the first that has it.
pub proof fn law_a_tool_is_found_by_its_name<T>(entries: Seq<Entry<T>>, name: Seq<char>)
    ensures
        match lookup(entries, name) {
            Some(tool) => exists|i: int|
                {
                    &&& 0 <= i < entries.len()
                    &&& (#[trigger] entries[i]).shown.name == name
                    &&& entries[i].tool == tool
                    &&& forall|j: int| 0 <= j < i ==> (#[trigger] entries[j]).shown.name != name
                },
            None => forall|j: int| 0 <= j < entries.len() ==> (#[trigger] entries[j]).shown.name
                != name,
        },
{
    lemma_place(entries, name);
    if let Some(i) = place(entries, name) {
        assert(entries[i].shown.name == name);
    }
}

/// Registering keeps every tool of another name in its place and as it is shown, puts the new one
/// among them, and leaves none of its name beside it where the names were distinct.
pub proof fn law_registering_keeps_the_other_tools<T>(entries: Seq<Entry<T>>, entry: Entry<T>)
    ensures
        ({
            let after = registered(entries, entry);
            &&& entries.len() <= after.len() <= entries.len() + 1
            &&& forall|i: int|
                0 <= i < entries.len() && (#[trigger] entries[i]).shown.name != entry.shown.name
                    ==> after[i] == entries[i]
            &&& exists|i: int| 0 <= i < after.len() && #[trigger] after[i] == entry
            &&& distinct_names(entries) ==> forall|i: int|
                0 <= i < after.len() && (#[trigger] after[i]).shown.name == entry.shown.name
                    ==> after[i] == entry
        }),
{
    lemma_place(entries, entry.shown.name);
    let after = registered(entries, entry);
    match place(entries, entry.shown.name) {
        Some(k) => {
            assert(after[k] == entry);
            assert forall|i: int|
                distinct_names(entries) && 0 <= i < after.len() && (#[trigger] after[i]).shown.name
                    == entry.shown.name implies after[i] == entry by {
                if i != k {
                    assert(after[i] == entries[i]);
                    assert(entries[k].shown.name == entry.shown.name);
                }
            }
        },
        None => {
            assert(after[entries.len() as int] == entry);
        },
    }
}

/// Every tool is shown in its place: to a model as it says of itself, and to a chat completion
/// service under the same name, with the same description and the same schema.
pub proof fn law_tools_are_shown_as_they_are<T>(entries: Seq<Entry<T>>)
    ensures
        shown(entries).len() == entries.len(),
        forall|i: int|
            #![trigger entries[i]]
            0 <= i < entries.len() ==> {
                &&& shown(entries)[i] == entries[i].shown
                &&& definition_of(shown(entries)[i]).name == entries[i].shown.name
                &&& definition_of(shown(entries)[i]).description == Some(
                    entries[i].shown.description,
                )
                &&& definition_of(shown(entries)[i]).parameters == entries[i].shown.input_schema
            },
{
}

// ==================== Reading files ====================

/// What the tool that reads files takes.
#[derive(Debug, PartialEq, Eq)]
pub struct FileReadInput {
    /// The file's absolute path.
    pub file_path: String,
    /// The first line to read, counted from zero.
    pub offset: Option<usize>,
    /// How many lines to read at most.
    pub limit: Option<usize>,
}

/// The tool that reads files.
pub struct FileReadTool;

/// The first line that is read of a text of `total` lines.
pub open spec fn first_line(total: nat, offset: Option<usize>) -> int {
    match offset {
        Some(n) => if n <= total {
            n as int
        } else {
            total as int
        },
        None => 0,
    }
}

/// The line behind the last that is read of a text of `total` lines.
pub open spec fn end_line(total: nat, offset: Option<usize>, limit: Option<usize>) -> int {
    match limit {
        Some(n) => if first_line(total, offset) + n <= total {
            first_line(total, offset) + n
        } else {
            total as int
        },
        None => total as int,
    }
}

/// The lines of a text that are read.
pub open spec fn read_lines(
    content: Seq<char>,
    offset: Option<usize>,
    limit: Option<usize>,
) -> Seq<Seq<char>> {
    let all = text::lines_of(content);
    all.subrange(first_line(all.len(), offset), end_line(all.len(), offset, limit))
}

impl FileReadTool {
    pub fn new() -> Self {
        FileReadTool
    }

    /// The lines of `content` that the input asks for. Adding the limit to the first line must not
    /// leave the range of sizes.
    pub fn select(&self, content: &str, offset: Option<usize>, limit: Option<usize>) -> (selected:
        String)
        requires
            limit matches Some(n) ==> first_line(text::lines_of(content@).len(), offset) + n
                <= usize::MAX,
        ensures
            selected@ == text::joined_by(read_lines(content@, offset, limit), "\n"@),
    {
        let lines = text::lines(content);
        let total: usize = lines.len();
        let start: usize = match offset {
            Some(n) => if n <= total {
                n
            } else {
                total
            },
            None => 0,
        };
        let end: usize = match limit {
            Some(n) => if start + n <= total {
                start + n
            } else {
                total
            },
            None => total,
        };
        assert(views::of(lines@.subrange(start as int, end as int)) =~= read_lines(
            content@,
            offset,
            limit,
        ));
        text::join_range(&lines, start, end, "\n")
    }
}

/// The schema of what the tool takes.
pub open spec fn read_schema() -> json::Json {
    json::object_schema(
        seq![
            (
                "file_path"@,
                json::parameter_schema(
                    "string"@,
                    "The absolute path to the file to read"@,
                ),
            ),
            (
                "offset"@,
                json::parameter_schema(
                    "integer"@,
                    "Line number to start reading from (0-based)"@,
                ),
            ),
            (
                "limit"@,
                json::parameter_schema("integer"@, "Maximum number of lines to read"@),
            ),
        ],
        seq!["file_path"@],
    )
}

impl Tool for FileReadTool {
    fn name(&self) -> (name: &str)
        ensures
            name@ == "Read"@,
    {
        "Read"
    }

    fn description(&self) -> (description: &str)
        ensures
            description@ == "Reads a text file from the local filesystem."@,
    {
        "Reads a text file from the local filesystem."
    }

    fn parameters(&self) -> (schema: serde_json::Value)
        ensures
            json::json(schema) == read_schema(),
    {
        let parameters = [
            Parameter {
                name: "file_path",
                kind: "string",
                description: "The absolute path to the file to read",
            },
            Parameter {
                name: "offset",
                kind: "integer",
                description: "Line number to start reading from (0-based)",
            },
            Parameter {
                name: "limit",
                kind: "integer",
                description: "Maximum number of lines to read",
            },
        ];
        let required = ["file_path"];
        proof {
            assert(views::of(parameters@) =~= seq![
                parameters@[0]@,
                parameters@[1]@,
                parameters@[2]@,
            ]);
            assert(text::str_texts(required@) =~= seq!["file_path"@]);
        }
        json::build_object_schema(&parameters, &required)
    }
}

/// What is written to a file is what reading the whole file gives back, where no line of it ends
/// in a carriage return and a line feed, and the last line goes without an ending.
pub proof fn law_reading_gives_back_what_was_written(content: Seq<char>)
    requires
        forall|i: int| !text::return_feed_at(content, i),
        content.len() > 0 ==> content.last() != '\n',
    ensures
        text::joined_by(read_lines(content, None, None), "\n"@) == content,
{
    reveal_strlit("\n");
    assert("\n"@ =~= seq!['\n']);
    text::law_lines_join_to_the_text(content);
    let all = text::lines_of(content);
    assert(all.subrange(0, all.len() as int) =~= all);
}

/// Reading a file page by page misses no line and repeats none: a page of `size` lines and what
/// comes behind it are together what is read without a limit.
pub proof fn law_pages_follow_each_other(content: Seq<char>, offset: usize, size: usize)
    requires
        offset + size <= usize::MAX,
    ensures
        read_lines(content, Some(offset), Some(size)) + read_lines(
            content,
            Some((offset + size) as usize),
            None,
        ) == read_lines(content, Some(offset), None),
{
    let all = text::lines_of(content);
    assert(read_lines(content, Some(offset), Some(size)) + read_lines(
        content,
        Some((offset + size) as usize),
        None,
    ) =~= read_lines(content, Some(offset), None));
}

/// Reading without an offset is reading from the first line.
pub proof fn law_reading_starts_at_the_first_line(content: Seq<char>, limit: Option<usize>)
    ensures
        read_lines(content, None, limit) == read_lines(content, Some(0), limit),
{
}

/// What is read is the lines of the file from the offset on, in their places, up to the limit or
/// the end of the file: as many as are asked for, where there are as many.
pub proof fn law_what_is_read_stands_there(
    content: Seq<char>,
    offset: usize,
    limit: Option<usize>,
)
    ensures
        ({
            let all = text::lines_of(content);
            let read = read_lines(content, Some(offset), limit);
            &&& forall|k: int|
                0 <= k < read.len() ==> offset + k < all.len() && #[trigger] read[k] == all[offset
                    + k]
            &&& limit matches Some(n) ==> read.len() <= n
            &&& forall|k: int|
                0 <= k && offset + k < all.len() && (limit matches Some(n) ==> k < n)
                    ==> #[trigger] all[offset + k] == read[k] && k < read.len()
        }),
{
}

// ==================== Editing files ====================

/// What the tool that edits files takes.
#[derive(Debug, PartialEq, Eq)]
pub struct FileEditInput {
    /// The file's absolute path.
    pub file_path: String,
    /// The text to replace.
    pub old_string: String,
    /// The text to replace it with.
    pub new_string: String,
    /// Whether every occurrence is replaced, or only the first.
    pub replace_all: Option<bool>,
}

/// The tool that edits files.
pub struct FileEditTool;

/// A text with what was replaced in it.
pub struct Edit {
    pub content: String,
    pub count: u128,
}

impl FileEditInput {
    /// Every occurrence is to be replaced.
    pub open spec fn replaces_all(self) -> bool {
        self.replace_all == Some(true)
    }
}

impl FileEditTool {
    pub fn new() -> Self {
        FileEditTool
    }

    /// Whether the input asks for a change at all. This is asked before the file is read.
    pub fn check(&self, input: &FileEditInput) -> (checked: Result<(), ToolError>)
        ensures
            checked is Ok <==> input.old_string@ != input.new_string@,
            checked matches Err(e) ==> (e matches ToolError::Execution(what) && what@
                == "old_string and new_string must be different"@),
    {
        if input.old_string == input.new_string {
            Err(ToolError::Execution("old_string and new_string must be different".to_owned()))
        } else {
            Ok(())
        }
    }

    /// The content of the file with the text replaced, once or everywhere, and how many times that
    /// was done. It is an error where the text is not in the file.
    pub fn apply(&self, content: &str, input: &FileEditInput) -> (edited: Result<Edit, ToolError>)
        ensures
            edited is Ok <==> text::occurs_in(content@, input.old_string@),
            edited matches Ok(edit) ==> if input.replaces_all() {
                &&& edit.content@ == text::replaced(
                    content@,
                    input.old_string@,
                    input.new_string@,
                )
                &&& edit.count == text::occurrences(content@, input.old_string@)
            } else {
                &&& edit.content@ == text::replaced_once(
                    content@,
                    input.old_string@,
                    input.new_string@,
                )
                &&& edit.count == 1
            },
            !input.replaces_all() ==> (edited matches Ok(edit) ==> exists|i: int|
                #![trigger content@.take(i)]
                {
                    let end = i + input.old_string@.len();
                    &&& 0 <= i && end <= content@.len()
                    &&& content@.subrange(i, end) == input.old_string@
                    &&& forall|j: int|
                        0 <= j < i ==> #[trigger] content@.subrange(
                            j,
                            j + input.old_string@.len(),
                        ) != input.old_string@
                    &&& edit.content@ == content@.take(i) + input.new_string@ + content@.skip(end)
                }),
            edited matches Err(e) ==> (e matches ToolError::Execution(what) && what@
                == "old_string not found in file"@),
    {
        let wanted = input.old_string.as_str();
        let replacement = input.new_string.as_str();
        let replace_all: bool = match input.replace_all {
            Some(b) => b,
            None => false,
        };
        proof {
            text::law_what_occurs_is_counted(content@, wanted@);
        }
        if replace_all {
            let count: u128 = text::count(content, wanted);
            if count == 0 {
                return Err(ToolError::Execution("old_string not found in file".to_owned()));
            }
            Ok(Edit { content: text::replace(content, wanted, replacement), count })
        } else {
            if !text::contains(content, wanted) {
                return Err(ToolError::Execution("old_string not found in file".to_owned()));
            }
            proof {
                let i = choose|i: int| text::first_from(content@, wanted@, 0, i);
                assert forall|j: int| 0 <= j < i implies #[trigger] content@.subrange(
                    j,
                    j + wanted@.len(),
                ) != wanted@ by {
                    assert(!text::occurs_at(content@, wanted@, j));
                }
                assert(content@.take(i).len() == i);
                text::law_replacing_once_changes_the_leftmost_place(
                    content@,
                    wanted@,
                    replacement@,
                );
            }
            Ok(Edit { content: text::replace_once(content, wanted, replacement), count: 1 })
        }
    }

    /// What the tool says of an edit that was written.
    pub fn report(&self, count: u128, file_path: &str) -> (said: String)
        ensures
            said@ == "replaced "@ + text::decimal_of(count as nat) + " occurrence(s) in "@
                + file_path@,
    {
        let head = text::joined3("replaced ", text::decimal(count).as_str(), " occurrence(s) in ");
        text::joined(head.as_str(), file_path)
    }
}

/// The schema of what the tool takes.
pub open spec fn edit_schema() -> json::Json {
    json::object_schema(
        seq![
            (
                "file_path"@,
                json::parameter_schema(
                    "string"@,
                    "The absolute path to the file to modify"@,
                ),
            ),
            ("old_string"@, json::parameter_schema("string"@, "The text to replace"@)),
            (
                "new_string"@,
                json::parameter_schema(
                    "string"@,
                    "The text to replace it with (must be different from old_string)"@,
                ),
            ),
            (
                "replace_all"@,
                json::parameter_schema(
                    "boolean"@,
                    "Replace all occurrences of old_string"@,
                ),
            ),
        ],
        seq!["file_path"@, "new_string"@, "old_string"@],
    )
}

impl Tool for FileEditTool {
    fn name(&self) -> (name: &str)
        ensures
            name@ == "Edit"@,
    {
        "Edit"
    }

    fn description(&self) -> (description: &str)
        ensures
            description@ == "Performs exact string replacements in files. Supports single or global replacement."@,
    {
        "Performs exact string replacements in files. Supports single or global replacement."
    }

    fn parameters(&self) -> (schema: serde_json::Value)
        ensures
            json::json(schema) == edit_schema(),
    {
        let parameters = [
            Parameter {
                name: "file_path",
                kind: "string",
                description: "The absolute path to the file to modify",
            },
            Parameter {
                name: "old_string",
                kind: "string",
                description: "The text to replace",
            },
            Parameter {
                name: "new_string",
                kind: "string",
                description: "The text to replace it with (must be different from old_string)",
            },
            Parameter {
                name: "replace_all",
                kind: "boolean",
                description: "Replace all occurrences of old_string",
            },
        ];
        let required = ["file_path", "new_string", "old_string"];
        proof {
            assert(views::of(parameters@) =~= seq![
                parameters@[0]@,
                parameters@[1]@,
                parameters@[2]@,
                parameters@[3]@,
            ]);
            assert(text::str_texts(required@) =~= seq![
                "file_path"@,
                "new_string"@,
                "old_string"@,
            ]);
        }
        json::build_object_schema(&parameters, &required)
    }
}

// ==================== Writing files ====================

/// What the tool that writes files takes.
#[derive(Debug, PartialEq, Eq)]
pub struct FileWriteInput {
    /// The file's absolute path.
    pub file_path: String,
    /// What the file is to hold.
    pub content: String,
}

/// The tool that writes files.
pub struct FileWriteTool;

impl FileWriteTool {
    pub fn new() -> Self {
        FileWriteTool
    }

    /// What the tool says of a file that was written.
    pub fn report(&self, input: &FileWriteInput) -> (said: String)
        ensures
            said@ == "wrote "@ + text::decimal_of(
                vstd::utf8::encode_utf8(input.content@).len(),
            ) + " bytes to "@ + input.file_path@,
    {
        let bytes: usize = text::byte_len(input.content.as_str());
        let head = text::joined3("wrote ", text::decimal(bytes as u128).as_str(), " bytes to ");
        text::joined(head.as_str(), input.file_path.as_str())
    }
}

/// The schema of what the tool takes.
pub open spec fn file_write_schema() -> json::Json {
    json::object_schema(
        seq![
            (
                "file_path"@,
                json::parameter_schema(
                    "string"@,
                    "The absolute path to the file to write (must be absolute, not relative)"@,
                ),
            ),
            (
                "content"@,
                json::parameter_schema("string"@, "The content to write to the file"@),
            ),
        ],
        seq!["content"@, "file_path"@],
    )
}

impl Tool for FileWriteTool {
    fn name(&self) -> (name: &str)
        ensures
            name@ == "Write"@,
    {
        "Write"
    }

    fn description(&self) -> (description: &str)
        ensures
            description@ == "Writes content to a file, creating it if it doesn't exist or overwriting if it does."@,
    {
        "Writes content to a file, creating it if it doesn't exist or overwriting if it does."
    }

    fn parameters(&self) -> (schema: serde_json::Value)
        ensures
            json::json(schema) == file_write_schema(),
    {
        let parameters = [
            Parameter {
                name: "file_path",
                kind: "string",
                description:
                    "The absolute path to the file to write (must be absolute, not relative)",
            },
            Parameter {
                name: "content",
                kind: "string",
                description: "The content to write to the file",
            },
        ];
        let required = ["content", "file_path"];
        proof {
            assert(views::of(parameters@) =~= seq![parameters@[0]@, parameters@[1]@]);
            assert(text::str_texts(required@) =~= seq!["content"@, "file_path"@]);
        }
        json::build_object_schema(&parameters, &required)
    }
}

// ==================== What the file tools give ====================

/// What is read is the lines of the file from the offset on, up to the limit or the end, with a
/// line feed between each two. Without an offset it begins with the first line.
pub proof fn law_a_file_is_read_from_the_offset_on(
    tool: FileReadTool,
    content: &str,
    offset: Option<usize>,
    limit: Option<usize>,
    selected: String,
)
    requires
        call_ensures(FileReadTool::select, (&tool, content, offset, limit), selected),
    ensures
        ({
            let all = text::lines_of(content@);
            let o: int = match offset {
                Some(n) => n as int,
                None => 0,
            };
            exists|lines: Seq<Seq<char>>|
                {
                    &&& selected@ == #[trigger] text::joined_by(lines, "\n"@)
                    &&& forall|k: int|
                        0 <= k < lines.len() ==> o + k < all.len() && #[trigger] lines[k] == all[o
                            + k]
                    &&& match limit {
                        Some(n) => lines.len() == n || (lines.len() < n && o + lines.len()
                            >= all.len()),
                        None => o + lines.len() >= all.len(),
                    }
                }
        }),
{
    let lines = read_lines(content@, offset, limit);
    assert(selected@ == text::joined_by(lines, "\n"@));
}

/// An edit that succeeds changes the file where the text stands first, or everywhere it stands, and
/// nowhere else; and it counts the places. Everywhere is meant only where that is asked for.
pub proof fn law_an_edit_changes_what_it_names(
    tool: FileEditTool,
    content: &str,
    input: FileEditInput,
    edit: Edit,
)
    requires
        call_ensures(
            FileEditTool::apply,
            (&tool, content, &input),
            Ok::<Edit, ToolError>(edit),
        ),
    ensures
        input.replace_all != Some(true) ==> {
            &&& edit.count == 1
            &&& exists|i: int|
                #![trigger content@.take(i)]
                {
                    let end = i + input.old_string@.len();
                    &&& 0 <= i && end <= content@.len()
                    &&& content@.subrange(i, end) == input.old_string@
                    &&& forall|j: int|
                        0 <= j < i ==> #[trigger] content@.subrange(
                            j,
                            j + input.old_string@.len(),
                        ) != input.old_string@
                    &&& edit.content@ == content@.take(i) + input.new_string@ + content@.skip(end)
                }
        },
        input.replace_all == Some(true) ==> {
            &&& edit.content@ == text::replaced(content@, input.old_string@, input.new_string@)
            &&& edit.count == text::occurrences(content@, input.old_string@)
            &&& edit.content@.len() == content@.len() + edit.count * (input.new_string@.len()
                - input.old_string@.len())
        },
{
    text::law_replacing_changes_the_length_by_occurrence(
        content@,
        input.old_string@,
        input.new_string@,
    );
}

/// An edit fails if and only if the text to replace stands nowhere in the file.
pub proof fn law_an_edit_fails_only_where_nothing_is_found(
    tool: FileEditTool,
    content: &str,
    input: FileEditInput,
    edited: Result<Edit, ToolError>,
)
    requires
        call_ensures(FileEditTool::apply, (&tool, content, &input), edited),
    ensures
        edited is Ok <==> exists|before: Seq<char>, behind: Seq<char>|
            content@ == #[trigger] (before + input.old_string@ + behind),
{
    text::law_what_is_found_is_there(content@, input.old_string@);
}

/// The result of a call stands under its identifier and its name. Where the tool is there, it holds
/// what the tool returned, and is an error exactly where the tool failed; where it is not, it says
/// so and is an error.
pub proof fn law_a_result_is_what_the_tool_returned<T>(
    registry: ToolRegistry<T>,
    tool_call_id: String,
    tool_name: &str,
    returned: Result<String, ToolError>,
    result: ToolResult,
)
    requires
        call_ensures(
            ToolRegistry::<T>::execute::<String>,
            (&registry, tool_call_id, tool_name, returned),
            result,
        ),
    ensures
        result@.tool_call_id == tool_call_id@,
        result@.tool_name == tool_name@,
        lookup(registry@, tool_name@) is None ==> result@.is_error && result@.content
            == "unknown tool: "@ + tool_name@,
        lookup(registry@, tool_name@) is Some ==> {
            &&& result@.is_error == returned is Err
            &&& returned matches Ok(content) ==> result@.content == content@
            &&& returned matches Err(ToolError::Execution(what)) ==> result@.content == what@
        },
{
}

} // verus!
