//! What the tools say of themselves: their names, descriptions and inputs.
use vstd::prelude::*;
use vstd::string::*;

use super::{lemma_with_tool, with_tool, Registry, ToolInfo, ToolInfoView};
use super::ast::{AstEdit, AstGrep};
use super::bash::Bash;
use super::fs::{EditFile, ReadFile, WriteFile};
use super::search::{Glob, Grep};
use crate::json::{items_view, Json, JsonView};
use crate::llm::{ToolSpec, ToolSpecView};

verus! {

// ── Schemas ─────────────────────────────────────────────────────────────────

/// A schema of a simple type.
pub open spec fn kind_of(kind: Seq<char>) -> JsonView {
    JsonView::object().with("type"@, JsonView::Str(kind))
}

/// A list without names.
pub open spec fn no_names() -> Seq<JsonView> {
    Seq::empty()
}

/// A schema of an object.
pub open spec fn shape(properties: JsonView, required: Seq<JsonView>) -> JsonView {
    kind_of("object"@).with("properties"@, properties).with("required"@, JsonView::Array(required))
}

fn typed(kind: &str) -> (r: Json)
    ensures
        r@ == kind_of(kind@),
{
    Json::object().with("type", Json::text(kind))
}

fn names() -> (r: Vec<Json>)
    ensures
        items_view(r@) == no_names(),
{
    let v: Vec<Json> = Vec::new();
    proof {
        assert(items_view(v@) =~= no_names());
    }
    v
}

fn named(list: Vec<Json>, name: &str) -> (r: Vec<Json>)
    ensures
        items_view(r@) == items_view(list@).push(JsonView::Str(name@)),
{
    let mut v = list;
    v.push(Json::text(name));
    proof {
        assert(items_view(v@) =~= items_view(list@).push(JsonView::Str(name@)));
    }
    v
}

fn schema(properties: Json, required: Vec<Json>) -> (r: Json)
    ensures
        r@ == shape(properties@, items_view(required@)),
{
    typed("object").with("properties", properties).with("required", Json::Array(required))
}

// ── Tools ───────────────────────────────────────────────────────────────────

/// The shell.
pub open spec fn bash_offer() -> ToolSpecView {
    ToolSpecView {
        name: "bash"@,
        description: "Run a bash command in the workspace directory. Default timeout 120s, maximum 600s. \
            Output is truncated beyond 100000 bytes."@,
        input_schema: shape(
            JsonView::object()
                .with(
                    "command"@,
                    kind_of("string"@)
                        .with("description"@, JsonView::Str("The command to execute"@)),
                )
                .with(
                    "timeout_seconds"@,
                    kind_of("integer"@)
                        .with(
                            "description"@,
                            JsonView::Str("Optional timeout override in seconds"@),
                        ),
                ),
            no_names().push(JsonView::Str("command"@)),
        ),
    }
}

/// The shell.
pub fn bash() -> (r: ToolSpec)
    ensures
        r@ == bash_offer(),
{
    ToolSpec {
        name: "bash".to_owned(),
        description: "Run a bash command in the workspace directory. Default timeout 120s, maximum 600s. \
            Output is truncated beyond 100000 bytes.".to_owned(),
        input_schema: schema(
            Json::object()
                .with(
                    "command",
                    typed("string").with("description", Json::text("The command to execute")),
                )
                .with(
                    "timeout_seconds",
                    typed("integer")
                        .with("description", Json::text("Optional timeout override in seconds")),
                ),
            named(names(), "command"),
        ),
    }
}

/// Reading.
pub open spec fn read_file_offer() -> ToolSpecView {
    ToolSpecView {
        name: "read_file"@,
        description: "Read through one path: a file, a directory, a SQLite database, or an http(s) URL. \
            Files render as 1-indexed `line#hash<TAB>content`, capped at 256 KiB — the \
            `line#hash` token is an anchor that `edit_file` patches accept — with an optional \
            line window. Directories render a sorted listing. A SQLite file (detected by \
            content) renders its schema and row counts, or runs a read-only `query` (writes are \
            rejected by the engine). URLs are fetched with GET (capped, 30s timeout); a sandbox \
            that denies network refuses them."@,
        input_schema: shape(
            JsonView::object()
                .with(
                    "path"@,
                    kind_of("string"@)
                        .with(
                            "description"@,
                            JsonView::Str(
                                "File, directory, or SQLite path, or an http(s):// URL"@,
                            ),
                        ),
                )
                .with(
                    "offset"@,
                    kind_of("integer"@)
                        .with("description"@, JsonView::Str("1-indexed first line (files only)"@)),
                )
                .with(
                    "limit"@,
                    kind_of("integer"@)
                        .with("description"@, JsonView::Str("Max lines to return (files only)"@)),
                )
                .with(
                    "query"@,
                    kind_of("string"@)
                        .with(
                            "description"@,
                            JsonView::Str("Read-only SQL to run (SQLite files only)"@),
                        ),
                ),
            no_names().push(JsonView::Str("path"@)),
        ),
    }
}

/// Reading.
pub fn read_file() -> (r: ToolSpec)
    ensures
        r@ == read_file_offer(),
{
    ToolSpec {
        name: "read_file".to_owned(),
        description: "Read through one path: a file, a directory, a SQLite database, or an http(s) URL. \
            Files render as 1-indexed `line#hash<TAB>content`, capped at 256 KiB — the \
            `line#hash` token is an anchor that `edit_file` patches accept — with an optional \
            line window. Directories render a sorted listing. A SQLite file (detected by \
            content) renders its schema and row counts, or runs a read-only `query` (writes are \
            rejected by the engine). URLs are fetched with GET (capped, 30s timeout); a sandbox \
            that denies network refuses them.".to_owned(),
        input_schema: schema(
            Json::object()
                .with(
                    "path",
                    typed("string")
                        .with(
                            "description",
                            Json::text("File, directory, or SQLite path, or an http(s):// URL"),
                        ),
                )
                .with(
                    "offset",
                    typed("integer")
                        .with("description", Json::text("1-indexed first line (files only)")),
                )
                .with(
                    "limit",
                    typed("integer")
                        .with("description", Json::text("Max lines to return (files only)")),
                )
                .with(
                    "query",
                    typed("string")
                        .with(
                            "description",
                            Json::text("Read-only SQL to run (SQLite files only)"),
                        ),
                ),
            named(names(), "path"),
        ),
    }
}

/// Writing.
pub open spec fn write_file_offer() -> ToolSpecView {
    ToolSpecView {
        name: "write_file"@,
        description: "Write content to a file, creating parent directories. Overwrites existing content."@,
        input_schema: shape(
            JsonView::object()
                .with("path"@, kind_of("string"@))
                .with("content"@, kind_of("string"@)),
            no_names().push(JsonView::Str("path"@)).push(JsonView::Str("content"@)),
        ),
    }
}

/// Writing.
pub fn write_file() -> (r: ToolSpec)
    ensures
        r@ == write_file_offer(),
{
    ToolSpec {
        name: "write_file".to_owned(),
        description: "Write content to a file, creating parent directories. Overwrites existing content.".to_owned(),
        input_schema: schema(
            Json::object().with("path", typed("string")).with("content", typed("string")),
            named(named(names(), "path"), "content"),
        ),
    }
}

/// Editing.
pub open spec fn edit_file_offer() -> ToolSpecView {
    ToolSpecView {
        name: "edit_file"@,
        description: "Edit a file, two ways. Exact string: replace exactly one occurrence of \
            `old_string` with `new_string` (fails if absent or ambiguous). Hashline patch: \
            `patch` is an array of hunks addressed by the `line#hash` anchors read_file shows — \
            {anchor, op: replace|insert_after|delete, to?, content?}. `to` extends \
            replace/delete to a span; anchor \"0\" with insert_after prepends at the top; \
            multi-line `content` uses newlines. A moved anchor is followed while its content is \
            unique; a changed one fails with fresh context to re-anchor from. Use exactly one \
            mode per call."@,
        input_schema: shape(
            JsonView::object()
                .with("path"@, kind_of("string"@))
                .with("old_string"@, kind_of("string"@))
                .with("new_string"@, kind_of("string"@))
                .with(
                    "patch"@,
                    kind_of("array"@)
                        .with(
                            "items"@,
                            shape(
                                JsonView::object()
                                    .with(
                                        "anchor"@,
                                        kind_of("string"@)
                                            .with(
                                                "description"@,
                                                JsonView::Str(
                                                    "`line#hash` token from read_file"@,
                                                ),
                                            ),
                                    )
                                    .with(
                                        "op"@,
                                        kind_of("string"@)
                                            .with(
                                                "enum"@,
                                                JsonView::Array(
                                                    no_names()
                                                        .push(JsonView::Str("replace"@))
                                                        .push(JsonView::Str("insert_after"@))
                                                        .push(JsonView::Str("delete"@)),
                                                ),
                                            ),
                                    )
                                    .with(
                                        "to"@,
                                        kind_of("string"@)
                                            .with(
                                                "description"@,
                                                JsonView::Str(
                                                    "End anchor for a replace/delete span \
                                                    (inclusive)"@,
                                                ),
                                            ),
                                    )
                                    .with(
                                        "content"@,
                                        kind_of("string"@)
                                            .with(
                                                "description"@,
                                                JsonView::Str("Replacement or inserted lines"@),
                                            ),
                                    ),
                                no_names()
                                    .push(JsonView::Str("anchor"@))
                                    .push(JsonView::Str("op"@)),
                            ),
                        ),
                ),
            no_names().push(JsonView::Str("path"@)),
        ),
    }
}

/// Editing.
pub fn edit_file() -> (r: ToolSpec)
    ensures
        r@ == edit_file_offer(),
{
    ToolSpec {
        name: "edit_file".to_owned(),
        description: "Edit a file, two ways. Exact string: replace exactly one occurrence of \
            `old_string` with `new_string` (fails if absent or ambiguous). Hashline patch: \
            `patch` is an array of hunks addressed by the `line#hash` anchors read_file shows — \
            {anchor, op: replace|insert_after|delete, to?, content?}. `to` extends \
            replace/delete to a span; anchor \"0\" with insert_after prepends at the top; \
            multi-line `content` uses newlines. A moved anchor is followed while its content is \
            unique; a changed one fails with fresh context to re-anchor from. Use exactly one \
            mode per call.".to_owned(),
        input_schema: schema(
            Json::object()
                .with("path", typed("string"))
                .with("old_string", typed("string"))
                .with("new_string", typed("string"))
                .with(
                    "patch",
                    typed("array")
                        .with(
                            "items",
                            schema(
                                Json::object()
                                    .with(
                                        "anchor",
                                        typed("string")
                                            .with(
                                                "description",
                                                Json::text("`line#hash` token from read_file"),
                                            ),
                                    )
                                    .with(
                                        "op",
                                        typed("string")
                                            .with(
                                                "enum",
                                                Json::Array(
                                                    named(
                                                        named(
                                                            named(names(), "replace"),
                                                            "insert_after",
                                                        ),
                                                        "delete",
                                                    ),
                                                ),
                                            ),
                                    )
                                    .with(
                                        "to",
                                        typed("string")
                                            .with(
                                                "description",
                                                Json::text(
                                                    "End anchor for a replace/delete span \
                                                    (inclusive)",
                                                ),
                                            ),
                                    )
                                    .with(
                                        "content",
                                        typed("string")
                                            .with(
                                                "description",
                                                Json::text("Replacement or inserted lines"),
                                            ),
                                    ),
                                named(named(names(), "anchor"), "op"),
                            ),
                        ),
                ),
            named(names(), "path"),
        ),
    }
}

/// Searching by regular expression.
pub open spec fn grep_offer() -> ToolSpecView {
    ToolSpecView {
        name: "grep"@,
        description: "Regex search file contents under the workspace (gitignore-aware). Returns \
            `path:line: text`, capped at 200 matches."@,
        input_schema: shape(
            JsonView::object()
                .with(
                    "pattern"@,
                    kind_of("string"@).with("description"@, JsonView::Str("Rust regex syntax"@)),
                )
                .with(
                    "path"@,
                    kind_of("string"@)
                        .with("description"@, JsonView::Str("Optional subdirectory to search"@)),
                ),
            no_names().push(JsonView::Str("pattern"@)),
        ),
    }
}

/// Searching by regular expression.
pub fn grep() -> (r: ToolSpec)
    ensures
        r@ == grep_offer(),
{
    ToolSpec {
        name: "grep".to_owned(),
        description: "Regex search file contents under the workspace (gitignore-aware). Returns \
            `path:line: text`, capped at 200 matches.".to_owned(),
        input_schema: schema(
            Json::object()
                .with(
                    "pattern",
                    typed("string").with("description", Json::text("Rust regex syntax")),
                )
                .with(
                    "path",
                    typed("string")
                        .with("description", Json::text("Optional subdirectory to search")),
                ),
            named(names(), "pattern"),
        ),
    }
}

/// Finding files.
pub open spec fn glob_offer() -> ToolSpecView {
    ToolSpecView {
        name: "glob"@,
        description: "Find files by glob pattern (e.g. `**/*.rs`) under the workspace (gitignore-aware), \
            capped at 200 results."@,
        input_schema: shape(
            JsonView::object().with("pattern"@, kind_of("string"@)),
            no_names().push(JsonView::Str("pattern"@)),
        ),
    }
}

/// Finding files.
pub fn glob() -> (r: ToolSpec)
    ensures
        r@ == glob_offer(),
{
    ToolSpec {
        name: "glob".to_owned(),
        description: "Find files by glob pattern (e.g. `**/*.rs`) under the workspace (gitignore-aware), \
            capped at 200 results.".to_owned(),
        input_schema: schema(Json::object().with("pattern", typed("string")), named(names(), "pattern")),
    }
}

/// Structural search.
pub open spec fn ast_grep_offer() -> ToolSpecView {
    ToolSpecView {
        name: "ast_grep"@,
        description: "Structural code search via ast-grep: `pattern` is matched against the syntax tree, \
            not text, with metavariables like $NAME and $$$ARGS (e.g. `foo($$$ARGS)` finds \
            every call to foo). Results are `file:line` plus the matched text. `lang` forces a \
            language; `path` narrows the search. Needs the ast-grep binary installed."@,
        input_schema: shape(
            JsonView::object()
                .with(
                    "pattern"@,
                    kind_of("string"@)
                        .with(
                            "description"@,
                            JsonView::Str("Structural pattern, e.g. `foo($$$ARGS)`"@),
                        ),
                )
                .with(
                    "lang"@,
                    kind_of("string"@)
                        .with(
                            "description"@,
                            JsonView::Str(
                                "Language to parse as (e.g. rust, ts, python); inferred from \
                                extensions when omitted"@,
                            ),
                        ),
                )
                .with(
                    "path"@,
                    kind_of("string"@)
                        .with(
                            "description"@,
                            JsonView::Str(
                                "File or directory to search (default: workspace root)"@,
                            ),
                        ),
                ),
            no_names().push(JsonView::Str("pattern"@)),
        ),
    }
}

/// Structural search.
pub fn ast_grep() -> (r: ToolSpec)
    ensures
        r@ == ast_grep_offer(),
{
    ToolSpec {
        name: "ast_grep".to_owned(),
        description: "Structural code search via ast-grep: `pattern` is matched against the syntax tree, \
            not text, with metavariables like $NAME and $$$ARGS (e.g. `foo($$$ARGS)` finds \
            every call to foo). Results are `file:line` plus the matched text. `lang` forces a \
            language; `path` narrows the search. Needs the ast-grep binary installed.".to_owned(),
        input_schema: schema(
            Json::object()
                .with(
                    "pattern",
                    typed("string")
                        .with(
                            "description",
                            Json::text("Structural pattern, e.g. `foo($$$ARGS)`"),
                        ),
                )
                .with(
                    "lang",
                    typed("string")
                        .with(
                            "description",
                            Json::text(
                                "Language to parse as (e.g. rust, ts, python); inferred from \
                                extensions when omitted",
                            ),
                        ),
                )
                .with(
                    "path",
                    typed("string")
                        .with(
                            "description",
                            Json::text("File or directory to search (default: workspace root)"),
                        ),
                ),
            named(names(), "pattern"),
        ),
    }
}

/// Structural rewriting.
pub open spec fn ast_edit_offer() -> ToolSpecView {
    ToolSpecView {
        name: "ast_edit"@,
        description: "Structural rewrite via ast-grep: every match of `pattern` becomes `rewrite`, with \
            metavariables carried over (e.g. `foo($A)` → `bar($A)`). By default nothing is \
            written — the call returns the diff to review; call again with `apply: true` to \
            write it. `lang` and `path` as in ast_grep. Needs the ast-grep binary installed."@,
        input_schema: shape(
            JsonView::object()
                .with(
                    "pattern"@,
                    kind_of("string"@)
                        .with("description"@, JsonView::Str("Structural pattern to match"@)),
                )
                .with(
                    "rewrite"@,
                    kind_of("string"@)
                        .with(
                            "description"@,
                            JsonView::Str("Replacement, using the pattern's metavariables"@),
                        ),
                )
                .with(
                    "lang"@,
                    kind_of("string"@)
                        .with(
                            "description"@,
                            JsonView::Str(
                                "Language to parse as; inferred from extensions when omitted"@,
                            ),
                        ),
                )
                .with(
                    "path"@,
                    kind_of("string"@)
                        .with(
                            "description"@,
                            JsonView::Str(
                                "File or directory to rewrite (default: workspace root)"@,
                            ),
                        ),
                )
                .with(
                    "apply"@,
                    kind_of("boolean"@)
                        .with(
                            "description"@,
                            JsonView::Str(
                                "Write the changes (default: false — preview the diff)"@,
                            ),
                        ),
                ),
            no_names().push(JsonView::Str("pattern"@)).push(JsonView::Str("rewrite"@)),
        ),
    }
}

/// Structural rewriting.
pub fn ast_edit() -> (r: ToolSpec)
    ensures
        r@ == ast_edit_offer(),
{
    ToolSpec {
        name: "ast_edit".to_owned(),
        description: "Structural rewrite via ast-grep: every match of `pattern` becomes `rewrite`, with \
            metavariables carried over (e.g. `foo($A)` → `bar($A)`). By default nothing is \
            written — the call returns the diff to review; call again with `apply: true` to \
            write it. `lang` and `path` as in ast_grep. Needs the ast-grep binary installed.".to_owned(),
        input_schema: schema(
            Json::object()
                .with(
                    "pattern",
                    typed("string")
                        .with("description", Json::text("Structural pattern to match")),
                )
                .with(
                    "rewrite",
                    typed("string")
                        .with(
                            "description",
                            Json::text("Replacement, using the pattern's metavariables"),
                        ),
                )
                .with(
                    "lang",
                    typed("string")
                        .with(
                            "description",
                            Json::text(
                                "Language to parse as; inferred from extensions when omitted",
                            ),
                        ),
                )
                .with(
                    "path",
                    typed("string")
                        .with(
                            "description",
                            Json::text("File or directory to rewrite (default: workspace root)"),
                        ),
                )
                .with(
                    "apply",
                    typed("boolean")
                        .with(
                            "description",
                            Json::text("Write the changes (default: false — preview the diff)"),
                        ),
                ),
            named(named(names(), "pattern"), "rewrite"),
        ),
    }
}

/// GitHub.
pub open spec fn github_offer() -> ToolSpecView {
    ToolSpecView {
        name: "github"@,
        description: "Run a GitHub CLI (gh) command with the user's login: `args` is the argument array, \
            e.g. [\"pr\", \"list\"], [\"pr\", \"view\", \"18\", \"--comments\"], [\"run\", \
            \"view\", \"--log-failed\"], [\"issue\", \"create\", \"--title\", ...]. No shell is \
            involved — pass each argument as its own array element. Acts as the user on GitHub, \
            so mutations (create, merge, close) are real; prefer read commands unless the task \
            calls for a change. Needs gh installed and authenticated."@,
        input_schema: shape(
            JsonView::object()
                .with(
                    "args"@,
                    kind_of("array"@)
                        .with("items"@, kind_of("string"@))
                        .with("description"@, JsonView::Str("gh arguments, one element each"@)),
                ),
            no_names().push(JsonView::Str("args"@)),
        ),
    }
}

/// GitHub.
pub fn github() -> (r: ToolSpec)
    ensures
        r@ == github_offer(),
{
    ToolSpec {
        name: "github".to_owned(),
        description: "Run a GitHub CLI (gh) command with the user's login: `args` is the argument array, \
            e.g. [\"pr\", \"list\"], [\"pr\", \"view\", \"18\", \"--comments\"], [\"run\", \
            \"view\", \"--log-failed\"], [\"issue\", \"create\", \"--title\", ...]. No shell is \
            involved — pass each argument as its own array element. Acts as the user on GitHub, \
            so mutations (create, merge, close) are real; prefer read commands unless the task \
            calls for a change. Needs gh installed and authenticated.".to_owned(),
        input_schema: schema(
            Json::object()
                .with(
                    "args",
                    typed("array")
                        .with("items", typed("string"))
                        .with("description", Json::text("gh arguments, one element each")),
                ),
            named(names(), "args"),
        ),
    }
}

/// Asking the human.
pub open spec fn ask_offer() -> ToolSpecView {
    ToolSpecView {
        name: "ask"@,
        description: "Ask the human driving this run one question and get their answer. Optional \
            `options` render as a numbered choice list; the reply is the chosen option's text, \
            or free text. Use it only when genuinely blocked on a decision the task cannot \
            settle — in a detached run there is no one to answer and the call fails with that \
            reason."@,
        input_schema: shape(
            JsonView::object()
                .with(
                    "question"@,
                    kind_of("string"@)
                        .with(
                            "description"@,
                            JsonView::Str(
                                "The question, complete enough to answer without reading the \
                                transcript"@,
                            ),
                        ),
                )
                .with(
                    "options"@,
                    kind_of("array"@)
                        .with("items"@, kind_of("string"@))
                        .with("description"@, JsonView::Str("Choices to offer (optional)"@)),
                ),
            no_names().push(JsonView::Str("question"@)),
        ),
    }
}

/// Asking the human.
pub fn ask() -> (r: ToolSpec)
    ensures
        r@ == ask_offer(),
{
    ToolSpec {
        name: "ask".to_owned(),
        description: "Ask the human driving this run one question and get their answer. Optional \
            `options` render as a numbered choice list; the reply is the chosen option's text, \
            or free text. Use it only when genuinely blocked on a decision the task cannot \
            settle — in a detached run there is no one to answer and the call fails with that \
            reason.".to_owned(),
        input_schema: schema(
            Json::object()
                .with(
                    "question",
                    typed("string")
                        .with(
                            "description",
                            Json::text(
                                "The question, complete enough to answer without reading the \
                                transcript",
                            ),
                        ),
                )
                .with(
                    "options",
                    typed("array")
                        .with("items", typed("string"))
                        .with("description", Json::text("Choices to offer (optional)")),
                ),
            named(names(), "question"),
        ),
    }
}

/// Delegating to a child.
pub open spec fn agent_offer() -> ToolSpecView {
    ToolSpecView {
        name: "agent"@,
        description: "Delegate a bounded task to a child agent with its own context window. Mode \
            `inspect` (default) gives it read-only tools (read_file, grep, glob); mode `work` \
            adds bash and file editing. By default the child runs to completion and returns its \
            final report. `worktree: true` (work mode only) runs the child in its own git \
            worktree on its own branch, so isolated work children can run in parallel. \
            `background: true` dispatches the child and returns immediately — use the job tool \
            to list, wait on, or cancel it. Use for research across many files or \
            self-contained subtasks."@,
        input_schema: shape(
            JsonView::object()
                .with(
                    "prompt"@,
                    kind_of("string"@)
                        .with(
                            "description"@,
                            JsonView::Str(
                                "Complete, self-contained task description — the child cannot \
                                see this conversation"@,
                            ),
                        ),
                )
                .with(
                    "mode"@,
                    kind_of("string"@)
                        .with(
                            "enum"@,
                            JsonView::Array(
                                no_names()
                                    .push(JsonView::Str("inspect"@))
                                    .push(JsonView::Str("work"@)),
                            ),
                        )
                        .with(
                            "description"@,
                            JsonView::Str("Capability set for the child (default: inspect)"@),
                        ),
                )
                .with(
                    "worktree"@,
                    kind_of("boolean"@)
                        .with(
                            "description"@,
                            JsonView::Str(
                                "Run a work child in its own git worktree (default: false)"@,
                            ),
                        ),
                )
                .with(
                    "background"@,
                    kind_of("boolean"@)
                        .with(
                            "description"@,
                            JsonView::Str(
                                "Dispatch and return immediately instead of waiting (default: \
                                false)"@,
                            ),
                        ),
                ),
            no_names().push(JsonView::Str("prompt"@)),
        ),
    }
}

/// Delegating to a child.
pub fn agent() -> (r: ToolSpec)
    ensures
        r@ == agent_offer(),
{
    ToolSpec {
        name: "agent".to_owned(),
        description: "Delegate a bounded task to a child agent with its own context window. Mode \
            `inspect` (default) gives it read-only tools (read_file, grep, glob); mode `work` \
            adds bash and file editing. By default the child runs to completion and returns its \
            final report. `worktree: true` (work mode only) runs the child in its own git \
            worktree on its own branch, so isolated work children can run in parallel. \
            `background: true` dispatches the child and returns immediately — use the job tool \
            to list, wait on, or cancel it. Use for research across many files or \
            self-contained subtasks.".to_owned(),
        input_schema: schema(
            Json::object()
                .with(
                    "prompt",
                    typed("string")
                        .with(
                            "description",
                            Json::text(
                                "Complete, self-contained task description — the child cannot \
                                see this conversation",
                            ),
                        ),
                )
                .with(
                    "mode",
                    typed("string")
                        .with("enum", Json::Array(named(named(names(), "inspect"), "work")))
                        .with(
                            "description",
                            Json::text("Capability set for the child (default: inspect)"),
                        ),
                )
                .with(
                    "worktree",
                    typed("boolean")
                        .with(
                            "description",
                            Json::text(
                                "Run a work child in its own git worktree (default: false)",
                            ),
                        ),
                )
                .with(
                    "background",
                    typed("boolean")
                        .with(
                            "description",
                            Json::text(
                                "Dispatch and return immediately instead of waiting (default: \
                                false)",
                            ),
                        ),
                ),
            named(names(), "prompt"),
        ),
    }
}

/// Coordinating children.
pub open spec fn job_offer() -> ToolSpecView {
    ToolSpecView {
        name: "job"@,
        description: "Coordinate this session's child agents. `list` shows every child and its state \
            (Working, Completed, Failed, Idle). `wait` blocks until one child finishes and \
            returns its final report (default timeout 900s, maximum 3600s). `cancel` stops a \
            background child dispatched in this process; its session is kept and resumable. \
            Children are addressed by the id prefix `list` shows. Pair with `agent` + \
            `background: true`: dispatch several, then wait on each."@,
        input_schema: shape(
            JsonView::object()
                .with(
                    "action"@,
                    kind_of("string"@)
                        .with(
                            "enum"@,
                            JsonView::Array(
                                no_names()
                                    .push(JsonView::Str("list"@))
                                    .push(JsonView::Str("wait"@))
                                    .push(JsonView::Str("cancel"@)),
                            ),
                        )
                        .with("description"@, JsonView::Str("What to do"@)),
                )
                .with(
                    "id"@,
                    kind_of("string"@)
                        .with(
                            "description"@,
                            JsonView::Str(
                                "For `wait`/`cancel`: the child's id (any unique prefix)"@,
                            ),
                        ),
                )
                .with(
                    "timeout_seconds"@,
                    kind_of("integer"@)
                        .with(
                            "description"@,
                            JsonView::Str("For `wait`: how long to block before giving up"@),
                        ),
                ),
            no_names().push(JsonView::Str("action"@)),
        ),
    }
}

/// Coordinating children.
pub fn job() -> (r: ToolSpec)
    ensures
        r@ == job_offer(),
{
    ToolSpec {
        name: "job".to_owned(),
        description: "Coordinate this session's child agents. `list` shows every child and its state \
            (Working, Completed, Failed, Idle). `wait` blocks until one child finishes and \
            returns its final report (default timeout 900s, maximum 3600s). `cancel` stops a \
            background child dispatched in this process; its session is kept and resumable. \
            Children are addressed by the id prefix `list` shows. Pair with `agent` + \
            `background: true`: dispatch several, then wait on each.".to_owned(),
        input_schema: schema(
            Json::object()
                .with(
                    "action",
                    typed("string")
                        .with(
                            "enum",
                            Json::Array(named(named(named(names(), "list"), "wait"), "cancel")),
                        )
                        .with("description", Json::text("What to do")),
                )
                .with(
                    "id",
                    typed("string")
                        .with(
                            "description",
                            Json::text("For `wait`/`cancel`: the child's id (any unique prefix)"),
                        ),
                )
                .with(
                    "timeout_seconds",
                    typed("integer")
                        .with(
                            "description",
                            Json::text("For `wait`: how long to block before giving up"),
                        ),
                ),
            named(names(), "action"),
        ),
    }
}

/// The plan.
pub open spec fn todo_offer() -> ToolSpecView {
    ToolSpecView {
        name: "todo"@,
        description: "Track the plan for this session as a durable todo list. `add` appends items, \
            `start` marks one in progress (any other active item returns to pending — one thing \
            at a time), `done` completes one, `remove` drops one, `list` shows the plan. Items \
            are addressed by the id prefix shown in the list. Every action returns the current \
            plan. Use it for multi-step work; keep it current as steps finish."@,
        input_schema: shape(
            JsonView::object()
                .with(
                    "action"@,
                    kind_of("string"@)
                        .with(
                            "enum"@,
                            JsonView::Array(
                                no_names()
                                    .push(JsonView::Str("add"@))
                                    .push(JsonView::Str("start"@))
                                    .push(JsonView::Str("done"@))
                                    .push(JsonView::Str("remove"@))
                                    .push(JsonView::Str("list"@)),
                            ),
                        )
                        .with("description"@, JsonView::Str("What to do to the plan"@)),
                )
                .with(
                    "items"@,
                    kind_of("array"@)
                        .with("items"@, kind_of("string"@))
                        .with(
                            "description"@,
                            JsonView::Str("For `add`: the items to append, in order"@),
                        ),
                )
                .with(
                    "id"@,
                    kind_of("string"@)
                        .with(
                            "description"@,
                            JsonView::Str(
                                "For `start`/`done`/`remove`: the item's id (any unique prefix)"@,
                            ),
                        ),
                ),
            no_names().push(JsonView::Str("action"@)),
        ),
    }
}

/// The plan.
pub fn todo() -> (r: ToolSpec)
    ensures
        r@ == todo_offer(),
{
    ToolSpec {
        name: "todo".to_owned(),
        description: "Track the plan for this session as a durable todo list. `add` appends items, \
            `start` marks one in progress (any other active item returns to pending — one thing \
            at a time), `done` completes one, `remove` drops one, `list` shows the plan. Items \
            are addressed by the id prefix shown in the list. Every action returns the current \
            plan. Use it for multi-step work; keep it current as steps finish.".to_owned(),
        input_schema: schema(
            Json::object()
                .with(
                    "action",
                    typed("string")
                        .with(
                            "enum",
                            Json::Array(
                                named(
                                    named(
                                        named(named(named(names(), "add"), "start"), "done"),
                                        "remove",
                                    ),
                                    "list",
                                ),
                            ),
                        )
                        .with("description", Json::text("What to do to the plan")),
                )
                .with(
                    "items",
                    typed("array")
                        .with("items", typed("string"))
                        .with(
                            "description",
                            Json::text("For `add`: the items to append, in order"),
                        ),
                )
                .with(
                    "id",
                    typed("string")
                        .with(
                            "description",
                            Json::text(
                                "For `start`/`done`/`remove`: the item's id (any unique prefix)",
                            ),
                        ),
                ),
            named(names(), "action"),
        ),
    }
}

// ── Registries ──────────────────────────────────────────────────────────────

/// A tool with its offer and whether it can be repeated after a crash.
pub open spec fn entry(spec: ToolSpecView, replay_safe: bool) -> ToolInfoView {
    ToolInfoView { spec, replay_safe }
}

/// The read-only tools.
pub open spec fn inspect_tools() -> Seq<ToolInfoView> {
    let a = with_tool(Seq::empty(), entry(read_file_offer(), true));
    let b = with_tool(a, entry(grep_offer(), true));
    let c = with_tool(b, entry(glob_offer(), true));
    with_tool(c, entry(ast_grep_offer(), true))
}

/// The standard workspace tools: shell, file input and output, and search —
/// both textual and structural.
pub open spec fn standard_tools() -> Seq<ToolInfoView> {
    let a = with_tool(Seq::empty(), entry(bash_offer(), false));
    let b = with_tool(a, entry(read_file_offer(), true));
    let c = with_tool(b, entry(write_file_offer(), false));
    let d = with_tool(c, entry(edit_file_offer(), false));
    let e = with_tool(d, entry(grep_offer(), true));
    let f = with_tool(e, entry(glob_offer(), true));
    let g = with_tool(f, entry(ast_grep_offer(), true));
    with_tool(g, entry(ast_edit_offer(), false))
}

impl Registry {
    /// The standard workspace registry.
    pub fn standard() -> (r: Self)
        ensures
            r.wf(),
            r@ == standard_tools(),
    {
        let mut r = Registry::new();
        proof {
            assert(r@ =~= Seq::<ToolInfoView>::empty());
        }
        r.register(ToolInfo::of(&Bash));
        r.register(ToolInfo::of(&ReadFile));
        r.register(ToolInfo::of(&WriteFile));
        r.register(ToolInfo::of(&EditFile));
        r.register(ToolInfo::of(&Grep));
        r.register(ToolInfo::of(&Glob));
        r.register(ToolInfo::of(&AstGrep::new()));
        r.register(ToolInfo::of(&AstEdit::new()));
        r
    }

    /// The read-only registry: no shell, no writes.
    pub fn inspect() -> (r: Self)
        ensures
            r.wf(),
            r@ == inspect_tools(),
    {
        let mut r = Registry::new();
        proof {
            assert(r@ =~= Seq::<ToolInfoView>::empty());
        }
        r.register(ToolInfo::of(&ReadFile));
        r.register(ToolInfo::of(&Grep));
        r.register(ToolInfo::of(&Glob));
        r.register(ToolInfo::of(&AstGrep::new()));
        r
    }
}

/// The read-only tools only read: each can be repeated after a crash, and none
/// is the shell or writes files.
pub proof fn law_inspect_tools_only_read()
    ensures
        forall|i: int|
            0 <= i < inspect_tools().len() ==> (#[trigger] inspect_tools()[i]).replay_safe && (
            inspect_tools()[i].spec == read_file_offer() || inspect_tools()[i].spec == grep_offer()
                || inspect_tools()[i].spec == glob_offer() || inspect_tools()[i].spec
                == ast_grep_offer()),
{
    let a = with_tool(Seq::empty(), entry(read_file_offer(), true));
    lemma_with_tool(Seq::empty(), entry(read_file_offer(), true));
    let b = with_tool(a, entry(grep_offer(), true));
    lemma_with_tool(a, entry(grep_offer(), true));
    let c = with_tool(b, entry(glob_offer(), true));
    lemma_with_tool(b, entry(glob_offer(), true));
    lemma_with_tool(c, entry(ast_grep_offer(), true));
}

} // verus!
