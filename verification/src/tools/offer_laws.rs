//! What the tools are offered with, and which tools a session has.
use vstd::prelude::*;
use vstd::string::*;

use super::{law_registered_tool_is_found, tool_named, Tool, ToolInfoView};
use super::ask::Ask;
use super::ast::{AstEdit, AstGrep};
use super::bash::Bash;
use super::catalog::{
    agent_offer, ask_offer, ast_edit_offer, ast_grep_offer, bash_offer, edit_file_offer, github_offer, glob_offer, grep_offer, job_offer, read_file_offer, todo_offer, write_file_offer, entry, inspect_tools, standard_tools,
};
use super::fs::{EditFile, ReadFile, WriteFile};
use super::github::{only_reads, GitHub};
use super::search::{Glob, Grep};
use crate::harness::pen::{tools_for, Mode};
use crate::json::JsonView;
use crate::llm::ToolSpecView;

verus! {

/// Whether an offer takes a field, of a kind.
pub open spec fn takes(o: ToolSpecView, key: Seq<char>, kind: Seq<char>) -> bool {
    &&& o.input_schema.get("properties"@) matches Some(fields)
    &&& fields.get(key) matches Some(field)
    &&& field.get("type"@) == Some(JsonView::Str(kind))
}

/// Whether an offer takes an object in which these fields have to be.
pub open spec fn demands(o: ToolSpecView, names: Seq<JsonView>) -> bool {
    &&& o.input_schema.get("type"@) == Some(JsonView::Str("object"@))
    &&& o.input_schema.get("required"@) == Some(JsonView::Array(names))
}

proof fn lemma_schema_words_differ()
    ensures
        "type"@ != "description"@,
        "type"@ != "items"@,
        "type"@ != "enum"@,
        "type"@ != "properties"@,
        "type"@ != "required"@,
        "description"@ != "items"@,
        "description"@ != "enum"@,
        "description"@ != "properties"@,
        "description"@ != "required"@,
        "items"@ != "enum"@,
        "items"@ != "properties"@,
        "items"@ != "required"@,
        "enum"@ != "properties"@,
        "enum"@ != "required"@,
        "properties"@ != "required"@,
{
    reveal_strlit("type");
    reveal_strlit("description");
    reveal_strlit("items");
    reveal_strlit("enum");
    reveal_strlit("properties");
    reveal_strlit("required");
    assert("type"@.len() == 4);
    assert("description"@.len() == 11);
    assert("items"@.len() == 5);
    assert("enum"@.len() == 4);
    assert("properties"@.len() == 10);
    assert("required"@.len() == 8);
    assert("type"@[0] == 't' && "enum"@[0] == 'e');
}

proof fn lemma_bash_fields_differ()
    ensures
        "command"@ != "timeout_seconds"@,
{
    reveal_strlit("command");
    reveal_strlit("timeout_seconds");
    assert("command"@.len() == 7);
    assert("timeout_seconds"@.len() == 15);
}

/// What the `bash` tool takes.
pub proof fn law_bash_offer()
    ensures
        bash_offer().name == "bash"@,
        takes(bash_offer(), "command"@, "string"@),
        takes(bash_offer(), "timeout_seconds"@, "integer"@),
        demands(bash_offer(), seq![JsonView::Str("command"@)]),
{
    lemma_schema_words_differ();
    lemma_bash_fields_differ();
    assert(Seq::<JsonView>::empty().push(JsonView::Str("command"@)) =~= seq![JsonView::Str("command"@)]);
}

proof fn lemma_read_file_fields_differ()
    ensures
        "path"@ != "offset"@,
        "path"@ != "limit"@,
        "path"@ != "query"@,
        "offset"@ != "limit"@,
        "offset"@ != "query"@,
        "limit"@ != "query"@,
{
    reveal_strlit("path");
    reveal_strlit("offset");
    reveal_strlit("limit");
    reveal_strlit("query");
    assert("path"@.len() == 4);
    assert("offset"@.len() == 6);
    assert("limit"@.len() == 5);
    assert("query"@.len() == 5);
    assert("limit"@[0] == 'l' && "query"@[0] == 'q');
}

/// What the `read_file` tool takes.
pub proof fn law_read_file_offer()
    ensures
        read_file_offer().name == "read_file"@,
        takes(read_file_offer(), "path"@, "string"@),
        takes(read_file_offer(), "offset"@, "integer"@),
        takes(read_file_offer(), "limit"@, "integer"@),
        takes(read_file_offer(), "query"@, "string"@),
        demands(read_file_offer(), seq![JsonView::Str("path"@)]),
{
    lemma_schema_words_differ();
    lemma_read_file_fields_differ();
    assert(Seq::<JsonView>::empty().push(JsonView::Str("path"@)) =~= seq![JsonView::Str("path"@)]);
}

proof fn lemma_write_file_fields_differ()
    ensures
        "path"@ != "content"@,
{
    reveal_strlit("path");
    reveal_strlit("content");
    assert("path"@.len() == 4);
    assert("content"@.len() == 7);
}

/// What the `write_file` tool takes.
pub proof fn law_write_file_offer()
    ensures
        write_file_offer().name == "write_file"@,
        takes(write_file_offer(), "path"@, "string"@),
        takes(write_file_offer(), "content"@, "string"@),
        demands(write_file_offer(), seq![JsonView::Str("path"@), JsonView::Str("content"@)]),
{
    lemma_schema_words_differ();
    lemma_write_file_fields_differ();
    assert(Seq::<JsonView>::empty().push(JsonView::Str("path"@)).push(JsonView::Str("content"@)) =~= seq![JsonView::Str("path"@), JsonView::Str("content"@)]);
}

proof fn lemma_edit_file_fields_differ()
    ensures
        "path"@ != "old_string"@,
        "path"@ != "new_string"@,
        "path"@ != "patch"@,
        "old_string"@ != "new_string"@,
        "old_string"@ != "patch"@,
        "new_string"@ != "patch"@,
{
    reveal_strlit("path");
    reveal_strlit("old_string");
    reveal_strlit("new_string");
    reveal_strlit("patch");
    assert("path"@.len() == 4);
    assert("old_string"@.len() == 10);
    assert("new_string"@.len() == 10);
    assert("patch"@.len() == 5);
    assert("old_string"@[0] == 'o' && "new_string"@[0] == 'n');
}

/// What the `edit_file` tool takes.
pub proof fn law_edit_file_offer()
    ensures
        edit_file_offer().name == "edit_file"@,
        takes(edit_file_offer(), "path"@, "string"@),
        takes(edit_file_offer(), "old_string"@, "string"@),
        takes(edit_file_offer(), "new_string"@, "string"@),
        takes(edit_file_offer(), "patch"@, "array"@),
        demands(edit_file_offer(), seq![JsonView::Str("path"@)]),
{
    lemma_schema_words_differ();
    lemma_edit_file_fields_differ();
    assert(Seq::<JsonView>::empty().push(JsonView::Str("path"@)) =~= seq![JsonView::Str("path"@)]);
}

proof fn lemma_grep_fields_differ()
    ensures
        "pattern"@ != "path"@,
{
    reveal_strlit("pattern");
    reveal_strlit("path");
    assert("pattern"@.len() == 7);
    assert("path"@.len() == 4);
}

/// What the `grep` tool takes.
pub proof fn law_grep_offer()
    ensures
        grep_offer().name == "grep"@,
        takes(grep_offer(), "pattern"@, "string"@),
        takes(grep_offer(), "path"@, "string"@),
        demands(grep_offer(), seq![JsonView::Str("pattern"@)]),
{
    lemma_schema_words_differ();
    lemma_grep_fields_differ();
    assert(Seq::<JsonView>::empty().push(JsonView::Str("pattern"@)) =~= seq![JsonView::Str("pattern"@)]);
}

/// What the `glob` tool takes.
pub proof fn law_glob_offer()
    ensures
        glob_offer().name == "glob"@,
        takes(glob_offer(), "pattern"@, "string"@),
        demands(glob_offer(), seq![JsonView::Str("pattern"@)]),
{
    lemma_schema_words_differ();
    assert(Seq::<JsonView>::empty().push(JsonView::Str("pattern"@)) =~= seq![JsonView::Str("pattern"@)]);
}

proof fn lemma_ast_grep_fields_differ()
    ensures
        "pattern"@ != "lang"@,
        "pattern"@ != "path"@,
        "lang"@ != "path"@,
{
    reveal_strlit("pattern");
    reveal_strlit("lang");
    reveal_strlit("path");
    assert("pattern"@.len() == 7);
    assert("lang"@.len() == 4);
    assert("path"@.len() == 4);
    assert("lang"@[0] == 'l' && "path"@[0] == 'p');
}

/// What the `ast_grep` tool takes.
pub proof fn law_ast_grep_offer()
    ensures
        ast_grep_offer().name == "ast_grep"@,
        takes(ast_grep_offer(), "pattern"@, "string"@),
        takes(ast_grep_offer(), "lang"@, "string"@),
        takes(ast_grep_offer(), "path"@, "string"@),
        demands(ast_grep_offer(), seq![JsonView::Str("pattern"@)]),
{
    lemma_schema_words_differ();
    lemma_ast_grep_fields_differ();
    assert(Seq::<JsonView>::empty().push(JsonView::Str("pattern"@)) =~= seq![JsonView::Str("pattern"@)]);
}

proof fn lemma_ast_edit_fields_differ()
    ensures
        "pattern"@ != "rewrite"@,
        "pattern"@ != "lang"@,
        "pattern"@ != "path"@,
        "pattern"@ != "apply"@,
        "rewrite"@ != "lang"@,
        "rewrite"@ != "path"@,
        "rewrite"@ != "apply"@,
        "lang"@ != "path"@,
        "lang"@ != "apply"@,
        "path"@ != "apply"@,
{
    reveal_strlit("pattern");
    reveal_strlit("rewrite");
    reveal_strlit("lang");
    reveal_strlit("path");
    reveal_strlit("apply");
    assert("pattern"@.len() == 7);
    assert("rewrite"@.len() == 7);
    assert("lang"@.len() == 4);
    assert("path"@.len() == 4);
    assert("apply"@.len() == 5);
    assert("pattern"@[0] == 'p' && "rewrite"@[0] == 'r');
    assert("lang"@[0] == 'l' && "path"@[0] == 'p');
}

/// What the `ast_edit` tool takes.
pub proof fn law_ast_edit_offer()
    ensures
        ast_edit_offer().name == "ast_edit"@,
        takes(ast_edit_offer(), "pattern"@, "string"@),
        takes(ast_edit_offer(), "rewrite"@, "string"@),
        takes(ast_edit_offer(), "lang"@, "string"@),
        takes(ast_edit_offer(), "path"@, "string"@),
        takes(ast_edit_offer(), "apply"@, "boolean"@),
        demands(ast_edit_offer(), seq![JsonView::Str("pattern"@), JsonView::Str("rewrite"@)]),
{
    lemma_schema_words_differ();
    lemma_ast_edit_fields_differ();
    assert(Seq::<JsonView>::empty().push(JsonView::Str("pattern"@)).push(JsonView::Str("rewrite"@)) =~= seq![JsonView::Str("pattern"@), JsonView::Str("rewrite"@)]);
}

/// What the `github` tool takes.
pub proof fn law_github_offer()
    ensures
        github_offer().name == "github"@,
        takes(github_offer(), "args"@, "array"@),
        demands(github_offer(), seq![JsonView::Str("args"@)]),
{
    lemma_schema_words_differ();
    assert(Seq::<JsonView>::empty().push(JsonView::Str("args"@)) =~= seq![JsonView::Str("args"@)]);
}

proof fn lemma_ask_fields_differ()
    ensures
        "question"@ != "options"@,
{
    reveal_strlit("question");
    reveal_strlit("options");
    assert("question"@.len() == 8);
    assert("options"@.len() == 7);
}

/// What the `ask` tool takes.
pub proof fn law_ask_offer()
    ensures
        ask_offer().name == "ask"@,
        takes(ask_offer(), "question"@, "string"@),
        takes(ask_offer(), "options"@, "array"@),
        demands(ask_offer(), seq![JsonView::Str("question"@)]),
{
    lemma_schema_words_differ();
    lemma_ask_fields_differ();
    assert(Seq::<JsonView>::empty().push(JsonView::Str("question"@)) =~= seq![JsonView::Str("question"@)]);
}

proof fn lemma_agent_fields_differ()
    ensures
        "prompt"@ != "mode"@,
        "prompt"@ != "worktree"@,
        "prompt"@ != "background"@,
        "mode"@ != "worktree"@,
        "mode"@ != "background"@,
        "worktree"@ != "background"@,
{
    reveal_strlit("prompt");
    reveal_strlit("mode");
    reveal_strlit("worktree");
    reveal_strlit("background");
    assert("prompt"@.len() == 6);
    assert("mode"@.len() == 4);
    assert("worktree"@.len() == 8);
    assert("background"@.len() == 10);
}

/// What the `agent` tool takes.
pub proof fn law_agent_offer()
    ensures
        agent_offer().name == "agent"@,
        takes(agent_offer(), "prompt"@, "string"@),
        takes(agent_offer(), "mode"@, "string"@),
        takes(agent_offer(), "worktree"@, "boolean"@),
        takes(agent_offer(), "background"@, "boolean"@),
        demands(agent_offer(), seq![JsonView::Str("prompt"@)]),
{
    lemma_schema_words_differ();
    lemma_agent_fields_differ();
    assert(Seq::<JsonView>::empty().push(JsonView::Str("prompt"@)) =~= seq![JsonView::Str("prompt"@)]);
}

proof fn lemma_job_fields_differ()
    ensures
        "action"@ != "id"@,
        "action"@ != "timeout_seconds"@,
        "id"@ != "timeout_seconds"@,
{
    reveal_strlit("action");
    reveal_strlit("id");
    reveal_strlit("timeout_seconds");
    assert("action"@.len() == 6);
    assert("id"@.len() == 2);
    assert("timeout_seconds"@.len() == 15);
}

/// What the `job` tool takes.
pub proof fn law_job_offer()
    ensures
        job_offer().name == "job"@,
        takes(job_offer(), "action"@, "string"@),
        takes(job_offer(), "id"@, "string"@),
        takes(job_offer(), "timeout_seconds"@, "integer"@),
        demands(job_offer(), seq![JsonView::Str("action"@)]),
{
    lemma_schema_words_differ();
    lemma_job_fields_differ();
    assert(Seq::<JsonView>::empty().push(JsonView::Str("action"@)) =~= seq![JsonView::Str("action"@)]);
}

proof fn lemma_todo_fields_differ()
    ensures
        "action"@ != "items"@,
        "action"@ != "id"@,
        "items"@ != "id"@,
{
    reveal_strlit("action");
    reveal_strlit("items");
    reveal_strlit("id");
    assert("action"@.len() == 6);
    assert("items"@.len() == 5);
    assert("id"@.len() == 2);
}

/// What the `todo` tool takes.
pub proof fn law_todo_offer()
    ensures
        todo_offer().name == "todo"@,
        takes(todo_offer(), "action"@, "string"@),
        takes(todo_offer(), "items"@, "array"@),
        takes(todo_offer(), "id"@, "string"@),
        demands(todo_offer(), seq![JsonView::Str("action"@)]),
{
    lemma_schema_words_differ();
    lemma_todo_fields_differ();
    assert(Seq::<JsonView>::empty().push(JsonView::Str("action"@)) =~= seq![JsonView::Str("action"@)]);
}

proof fn lemma_tool_names_differ()
    ensures
        "bash"@ != "read_file"@,
        "bash"@ != "write_file"@,
        "bash"@ != "edit_file"@,
        "bash"@ != "grep"@,
        "bash"@ != "glob"@,
        "bash"@ != "ast_grep"@,
        "bash"@ != "ast_edit"@,
        "read_file"@ != "write_file"@,
        "read_file"@ != "edit_file"@,
        "read_file"@ != "grep"@,
        "read_file"@ != "glob"@,
        "read_file"@ != "ast_grep"@,
        "read_file"@ != "ast_edit"@,
        "write_file"@ != "edit_file"@,
        "write_file"@ != "grep"@,
        "write_file"@ != "glob"@,
        "write_file"@ != "ast_grep"@,
        "write_file"@ != "ast_edit"@,
        "edit_file"@ != "grep"@,
        "edit_file"@ != "glob"@,
        "edit_file"@ != "ast_grep"@,
        "edit_file"@ != "ast_edit"@,
        "grep"@ != "glob"@,
        "grep"@ != "ast_grep"@,
        "grep"@ != "ast_edit"@,
        "glob"@ != "ast_grep"@,
        "glob"@ != "ast_edit"@,
        "ast_grep"@ != "ast_edit"@,
{
    reveal_strlit("bash");
    reveal_strlit("read_file");
    reveal_strlit("write_file");
    reveal_strlit("edit_file");
    reveal_strlit("grep");
    reveal_strlit("glob");
    reveal_strlit("ast_grep");
    reveal_strlit("ast_edit");
    assert("bash"@.len() == 4);
    assert("read_file"@.len() == 9);
    assert("write_file"@.len() == 10);
    assert("edit_file"@.len() == 9);
    assert("grep"@.len() == 4);
    assert("glob"@.len() == 4);
    assert("ast_grep"@.len() == 8);
    assert("ast_edit"@.len() == 8);
    assert("bash"@[0] == 'b' && "grep"@[0] == 'g');
    assert("bash"@[0] == 'b' && "glob"@[0] == 'g');
    assert("read_file"@[0] == 'r' && "edit_file"@[0] == 'e');
    assert("grep"@[1] == 'r' && "glob"@[1] == 'l');
    assert("ast_grep"@[4] == 'g' && "ast_edit"@[4] == 'e');
}

/// The standard tools are these, each told apart by whether it may be repeated
/// after a crash, and no others.
pub proof fn law_standard_tools(name: Seq<char>)
    ensures
        tool_named(standard_tools(), name) == (if name == "bash"@ {
            Some(entry(bash_offer(), false))
        } else if name == "read_file"@ {
            Some(entry(read_file_offer(), true))
        } else if name == "write_file"@ {
            Some(entry(write_file_offer(), false))
        } else if name == "edit_file"@ {
            Some(entry(edit_file_offer(), false))
        } else if name == "grep"@ {
            Some(entry(grep_offer(), true))
        } else if name == "glob"@ {
            Some(entry(glob_offer(), true))
        } else if name == "ast_grep"@ {
            Some(entry(ast_grep_offer(), true))
        } else if name == "ast_edit"@ {
            Some(entry(ast_edit_offer(), false))
        } else {
            None
        }),
{
    lemma_tool_names_differ();
    let none = Seq::<ToolInfoView>::empty();
    assert(tool_named(none, name) is None);
    law_registered_tool_is_found(none, entry(bash_offer(), false), name);
    let t0 = super::with_tool(none, entry(bash_offer(), false));
    law_registered_tool_is_found(t0, entry(read_file_offer(), true), name);
    let t1 = super::with_tool(t0, entry(read_file_offer(), true));
    law_registered_tool_is_found(t1, entry(write_file_offer(), false), name);
    let t2 = super::with_tool(t1, entry(write_file_offer(), false));
    law_registered_tool_is_found(t2, entry(edit_file_offer(), false), name);
    let t3 = super::with_tool(t2, entry(edit_file_offer(), false));
    law_registered_tool_is_found(t3, entry(grep_offer(), true), name);
    let t4 = super::with_tool(t3, entry(grep_offer(), true));
    law_registered_tool_is_found(t4, entry(glob_offer(), true), name);
    let t5 = super::with_tool(t4, entry(glob_offer(), true));
    law_registered_tool_is_found(t5, entry(ast_grep_offer(), true), name);
    let t6 = super::with_tool(t5, entry(ast_grep_offer(), true));
    law_registered_tool_is_found(t6, entry(ast_edit_offer(), false), name);
}

/// The tools that only read are these, and no others.
pub proof fn law_inspect_tools(name: Seq<char>)
    ensures
        tool_named(inspect_tools(), name) == (if name == "read_file"@ {
            Some(entry(read_file_offer(), true))
        } else if name == "grep"@ {
            Some(entry(grep_offer(), true))
        } else if name == "glob"@ {
            Some(entry(glob_offer(), true))
        } else if name == "ast_grep"@ {
            Some(entry(ast_grep_offer(), true))
        } else {
            None
        }),
{
    lemma_tool_names_differ();
    let none = Seq::<ToolInfoView>::empty();
    assert(tool_named(none, name) is None);
    law_registered_tool_is_found(none, entry(read_file_offer(), true), name);
    let t0 = super::with_tool(none, entry(read_file_offer(), true));
    law_registered_tool_is_found(t0, entry(grep_offer(), true), name);
    let t1 = super::with_tool(t0, entry(grep_offer(), true));
    law_registered_tool_is_found(t1, entry(glob_offer(), true), name);
    let t2 = super::with_tool(t1, entry(glob_offer(), true));
    law_registered_tool_is_found(t2, entry(ast_grep_offer(), true), name);
}

/// A child that works has the standard tools, one that inspects those that only
/// read.
pub proof fn law_child_tools()
    ensures
        tools_for(Mode::Work) == standard_tools(),
        tools_for(Mode::Inspect) == inspect_tools(),
{
}

/// Which calls run beside others, and which may be repeated after a crash:
/// reading and searching always; what changes things, runs commands or asks the
/// user never; a structural edit beside others while it only previews, and a
/// `gh` call while it only reads.
pub proof fn law_which_calls_run_beside(
    input: JsonView,
    bash: Bash,
    reader: ReadFile,
    write: WriteFile,
    edit: EditFile,
    grep: Grep,
    glob: Glob,
    search: AstGrep,
    rewrite: AstEdit,
    github: GitHub,
    ask: Ask,
)
    ensures
        !bash.overlaps(input) && !bash.replays(),
        reader.overlaps(input) && reader.replays(),
        !write.overlaps(input) && !write.replays(),
        !edit.overlaps(input) && !edit.replays(),
        grep.overlaps(input) && grep.replays(),
        glob.overlaps(input) && glob.replays(),
        search.overlaps(input) && search.replays(),
        rewrite.overlaps(input) == (input.get("apply"@) != Some(JsonView::Bool(true))),
        !rewrite.replays(),
        github.overlaps(input) == only_reads(input.texts_field("args"@)),
        !github.replays(),
        !ask.overlaps(input) && !ask.replays(),
        bash.offer() == bash_offer(),
        reader.offer() == read_file_offer(),
        write.offer() == write_file_offer(),
        edit.offer() == edit_file_offer(),
        grep.offer() == grep_offer(),
        glob.offer() == glob_offer(),
        search.offer() == ast_grep_offer(),
        rewrite.offer() == ast_edit_offer(),
        github.offer() == github_offer(),
        ask.offer() == ask_offer(),
{
}

} // verus!
