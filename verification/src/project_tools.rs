//! Setting a project's tools up with mise: whether it configures mise
//! itself, which tools its files and profile call for, and the commands a
//! terminal runs to install or update them.
use vstd::prelude::*;
use crate::language::{language_slug_for_path, language_slug_spec};
use crate::language_service::{
    find_server, language_server_by_id, language_server_table, language_servers_for_language,
    profile_language_id, profile_language_spec, servers_for_language, LanguageServerDefinition,
    LanguageServerView, WorkspaceTechnology,
};
use crate::text::{chars_of, concat, decimal, ends_with, format_decimal, seq_ends_with, seq_eq, string_from_chars, trim, trimmed};
use crate::tree::{entries_view, EntryKind, EntryView, FileEntry};

verus! {

/// `a` comes before `b` in the order of `str`'s `Ord`: by characters, a
/// prefix first.
pub open spec fn text_less(a: Seq<char>, b: Seq<char>) -> bool
    decreases a.len(),
{
    if b.len() == 0 {
        false
    } else if a.len() == 0 {
        true
    } else if a[0] != b[0] {
        a[0] < b[0]
    } else {
        text_less(a.drop_first(), b.drop_first())
    }
}

proof fn lemma_text_less_irreflexive(a: Seq<char>)
    ensures
        !text_less(a, a),
    decreases a.len(),
{
    if a.len() > 0 {
        lemma_text_less_irreflexive(a.drop_first());
    }
}

proof fn lemma_text_less_total(a: Seq<char>, b: Seq<char>)
    requires
        a != b,
    ensures
        text_less(a, b) || text_less(b, a),
    decreases a.len(),
{
    if a.len() > 0 && b.len() > 0 && a[0] == b[0] {
        if a.drop_first() == b.drop_first() {
            assert(a =~= seq![a[0]] + a.drop_first());
            assert(b =~= seq![b[0]] + b.drop_first());
        }
        lemma_text_less_total(a.drop_first(), b.drop_first());
    } else if a.len() > 0 && b.len() > 0 {
        assert(a[0] != b[0]);
    } else if a.len() == 0 && b.len() == 0 {
        assert(a =~= b);
    }
}

proof fn lemma_text_less_transitive(a: Seq<char>, b: Seq<char>, c: Seq<char>)
    requires
        text_less(a, b),
        text_less(b, c),
    ensures
        text_less(a, c),
    decreases a.len(),
{
    if a.len() > 0 && b.len() > 0 && c.len() > 0 && a[0] == b[0] && b[0] == c[0] {
        lemma_text_less_transitive(a.drop_first(), b.drop_first(), c.drop_first());
    }
}

proof fn lemma_text_less_asymmetric(a: Seq<char>, b: Seq<char>)
    requires
        text_less(a, b),
    ensures
        !text_less(b, a),
{
    if text_less(b, a) {
        lemma_text_less_transitive(a, b, a);
        lemma_text_less_irreflexive(a);
    }
}

/// Whether `a` comes before `b`.
pub fn is_text_less(a: &[char], b: &[char]) -> (r: bool)
    ensures
        r == text_less(a@, b@),
{
    let mut i: usize = 0;
    proof {
        assert(a@.skip(0) =~= a@);
        assert(b@.skip(0) =~= b@);
    }
    while i < a.len() && i < b.len() && a[i] == b[i]
        invariant
            i <= a@.len(),
            i <= b@.len(),
            text_less(a@, b@) == text_less(a@.skip(i as int), b@.skip(i as int)),
        decreases a@.len() - i,
    {
        proof {
            assert(a@.skip(i as int).drop_first() =~= a@.skip(i + 1));
            assert(b@.skip(i as int).drop_first() =~= b@.skip(i + 1));
        }
        i = i + 1;
    }
    if i == b.len() {
        false
    } else if i == a.len() {
        true
    } else {
        a[i] < b[i]
    }
}

/// Where `x` goes among `sorted`: before the first that comes after it.
pub open spec fn insert_position(sorted: Seq<Seq<char>>, x: Seq<char>, k: int) -> int
    decreases sorted.len() - k,
{
    if k < 0 || k >= sorted.len() {
        sorted.len() as int
    } else if text_less(x, sorted[k]) {
        k
    } else {
        insert_position(sorted, x, k + 1)
    }
}

/// `ids` in ascending order, each once.
pub open spec fn sorted_unique(ids: Seq<Seq<char>>) -> Seq<Seq<char>>
    decreases ids.len(),
{
    if ids.len() == 0 {
        Seq::empty()
    } else {
        let sorted = sorted_unique(ids.drop_last());
        let x = ids.last();
        if sorted.contains(x) {
            sorted
        } else {
            sorted.insert(insert_position(sorted, x, 0), x)
        }
    }
}

pub open spec fn strictly_ascending(s: Seq<Seq<char>>) -> bool {
    forall|i: int, j: int| 0 <= i < j < s.len() ==> text_less(s[i], s[j])
}

proof fn lemma_insert_position(sorted: Seq<Seq<char>>, x: Seq<char>, k: int)
    requires
        0 <= k <= sorted.len(),
    ensures
        k <= insert_position(sorted, x, k) <= sorted.len(),
        forall|i: int| k <= i < insert_position(sorted, x, k) ==> !text_less(x, #[trigger] sorted[i]),
        insert_position(sorted, x, k) < sorted.len() ==> text_less(x, sorted[insert_position(sorted, x, k)]),
    decreases sorted.len() - k,
{
    if k < sorted.len() && !text_less(x, sorted[k]) {
        lemma_insert_position(sorted, x, k + 1);
    }
}

/// Sorting and removing repeats: the result is ascending and holds exactly
/// the ids given.
pub proof fn sorted_ids_are_ascending_and_complete(ids: Seq<Seq<char>>)
    ensures
        strictly_ascending(sorted_unique(ids)),
        forall|x: Seq<char>| sorted_unique(ids).contains(x) <==> ids.contains(x),
    decreases ids.len(),
{
    if ids.len() > 0 {
        let init = ids.drop_last();
        let x = ids.last();
        sorted_ids_are_ascending_and_complete(init);
        let sorted = sorted_unique(init);
        if !sorted.contains(x) {
            let k = insert_position(sorted, x, 0);
            lemma_insert_position(sorted, x, 0);
            let r = sorted.insert(k, x);
            assert forall|i: int, j: int| 0 <= i < j < r.len() implies text_less(r[i], r[j]) by {
                if j < k {
                    assert(r[i] == sorted[i] && r[j] == sorted[j]);
                } else if j == k {
                    assert(r[i] == sorted[i]);
                    assert(!text_less(x, sorted[i]));
                    assert(sorted[i] != x);
                    lemma_text_less_total(sorted[i], x);
                } else if i < k {
                    assert(r[i] == sorted[i] && r[j] == sorted[j - 1]);
                } else if i == k {
                    assert(r[j] == sorted[j - 1]);
                    if j - 1 > k {
                        lemma_text_less_transitive(x, sorted[k], sorted[j - 1]);
                    }
                } else {
                    assert(r[i] == sorted[i - 1] && r[j] == sorted[j - 1]);
                }
            }
            assert forall|y: Seq<char>| r.contains(y) <==> ids.contains(y) by {
                if r.contains(y) {
                    let i = choose|i: int| 0 <= i < r.len() && r[i] == y;
                    if i == k {
                        assert(ids[ids.len() - 1] == y);
                    } else {
                        let si = if i < k { i } else { i - 1 };
                        assert(r[i] == sorted[si]);
                        assert(sorted.contains(y));
                        assert(init.contains(y));
                        let ii = choose|ii: int| 0 <= ii < init.len() && init[ii] == y;
                        assert(ids[ii] == init[ii]);
                    }
                }
                if ids.contains(y) {
                    let ii = choose|ii: int| 0 <= ii < ids.len() && ids[ii] == y;
                    if ii == ids.len() - 1 {
                        assert(r[k] == y);
                    } else {
                        assert(init[ii] == y);
                        assert(init.contains(y));
                        assert(sorted.contains(y));
                        let si = choose|si: int| 0 <= si < sorted.len() && sorted[si] == y;
                        if si < k {
                            assert(r[si] == y);
                        } else {
                            assert(r[si + 1] == y);
                        }
                    }
                }
            }
        } else {
            assert forall|y: Seq<char>| sorted.contains(y) <==> ids.contains(y) by {
                if ids.contains(y) {
                    let ii = choose|ii: int| 0 <= ii < ids.len() && ids[ii] == y;
                    if ii < ids.len() - 1 {
                        assert(init[ii] == y);
                        assert(init.contains(y));
                    }
                }
                if sorted.contains(y) {
                    assert(init.contains(y));
                    let ii = choose|ii: int| 0 <= ii < init.len() && init[ii] == y;
                    assert(ids[ii] == init[ii]);
                }
            }
        }
    }
}

fn contains_id(v: &Vec<&'static str>, x: &Vec<char>) -> (r: bool)
    ensures
        r == v@.map_values(|s: &'static str| s@).contains(x@),
{
    let ghost vv = v@.map_values(|s: &'static str| s@);
    let mut k: usize = 0;
    while k < v.len()
        invariant
            k <= v@.len(),
            vv == v@.map_values(|s: &'static str| s@),
            forall|i: int| 0 <= i < k ==> vv[i] != x@,
        decreases v@.len() - k,
    {
        if seq_eq(&chars_of(v[k]), x) {
            proof {
                assert(vv[k as int] == x@);
            }
            return true;
        }
        k = k + 1;
    }
    proof {
        if vv.contains(x@) {
            let i = choose|i: int| 0 <= i < vv.len() && vv[i] == x@;
        }
    }
    false
}

/// Adds `x` to ascending, repeat-free `sorted` (`sort_unstable` and
/// `dedup`, one id at a time).
fn insert_sorted(sorted: &mut Vec<&'static str>, x: &'static str)
    ensures
        final(sorted)@.map_values(|s: &'static str| s@) == {
            let s = old(sorted)@.map_values(|s: &'static str| s@);
            if s.contains(x@) {
                s
            } else {
                s.insert(insert_position(s, x@, 0), x@)
            }
        },
{
    let ghost s = sorted@.map_values(|s: &'static str| s@);
    let xc = chars_of(x);
    if contains_id(sorted, &xc) {
        return;
    }
    let mut k: usize = 0;
    while k < sorted.len() && !is_text_less(&xc, &chars_of(sorted[k]))
        invariant
            k <= sorted@.len(),
            s == sorted@.map_values(|s: &'static str| s@),
            xc@ == x@,
            insert_position(s, x@, 0) == insert_position(s, x@, k as int),
        decreases sorted@.len() - k,
    {
        proof {
            assert(s[k as int] == sorted@[k as int]@);
        }
        k = k + 1;
    }
    proof {
        if k < sorted@.len() {
            assert(s[k as int] == sorted@[k as int]@);
        }
        assert(insert_position(s, x@, k as int) == k);
    }
    sorted.insert(k, x);
    proof {
        assert(sorted@.map_values(|s: &'static str| s@) =~= s.insert(k as int, x@));
    }
}


/// A language of a workspace, with how much of the code is in it.
#[derive(Debug, PartialEq, Eq)]
pub struct WorkspaceLanguage {
    pub name: String,
    pub bytes: u64,
}

/// What a workspace was found to use.
#[derive(Debug, PartialEq, Eq)]
pub struct WorkspaceProfile {
    pub technologies: Vec<WorkspaceTechnology>,
    pub languages: Vec<WorkspaceLanguage>,
}

pub open spec fn ids_view(v: Seq<&'static str>) -> Seq<Seq<char>> {
    v.map_values(|s: &'static str| s@)
}

/// The names of the files (not directories) among `entries`, in order.
pub open spec fn file_names(entries: Seq<EntryView>) -> Seq<Seq<char>>
    decreases entries.len(),
{
    if entries.len() == 0 {
        Seq::empty()
    } else {
        let rest = file_names(entries.drop_last());
        if entries.last().kind == EntryKind::File {
            rest.push(entries.last().name)
        } else {
            rest
        }
    }
}

/// Whether a name among `files` ends with `suffix`.
pub open spec fn has_suffix(files: Seq<Seq<char>>, suffix: Seq<char>) -> bool {
    exists|i: int| 0 <= i < files.len() && ends_with(#[trigger] files[i], suffix)
}

pub open spec fn when(condition: bool, tools: Seq<Seq<char>>) -> Seq<Seq<char>> {
    if condition {
        tools
    } else {
        Seq::empty()
    }
}

/// Rust, for a Cargo project or a pinned toolchain.
pub open spec fn rust_tools(f: Seq<Seq<char>>) -> Seq<Seq<char>> {
    when(f.contains("Cargo.toml"@) || f.contains("rust-toolchain"@) || f.contains("rust-toolchain.toml"@), seq!["rust@stable"@])
}

/// One JavaScript runtime: Deno, else Bun, else Node with its package
/// manager.
pub open spec fn script_tools(f: Seq<Seq<char>>) -> Seq<Seq<char>> {
    if f.contains("deno.json"@) || f.contains("deno.jsonc"@) || f.contains("deno.lock"@) {
        seq!["deno@latest"@]
    } else if f.contains("bun.lock"@) || f.contains("bun.lockb"@) {
        seq!["bun@latest"@]
    } else if f.contains("package.json"@) {
        seq!["node@lts"@] + (if f.contains("pnpm-lock.yaml"@) {
            seq!["pnpm@latest"@]
        } else if f.contains("yarn.lock"@) {
            seq!["yarn@latest"@]
        } else {
            Seq::empty()
        })
    } else {
        Seq::empty()
    }
}

/// Python, with uv when the project locks with it.
pub open spec fn python_tools(f: Seq<Seq<char>>) -> Seq<Seq<char>> {
    when(
        f.contains("pyproject.toml"@) || f.contains("requirements.txt"@) || f.contains("setup.py"@) || f.contains(
            "setup.cfg"@,
        ) || f.contains("Pipfile"@),
        seq!["python@latest"@] + when(f.contains("uv.lock"@), seq!["uv@latest"@]),
    )
}

/// Go, .NET, Java and Ruby.
pub open spec fn compiled_tools(f: Seq<Seq<char>>) -> Seq<Seq<char>> {
    when(f.contains("go.mod"@) || f.contains("go.work"@), seq!["go@latest"@]) + when(
        f.contains("global.json"@) || has_suffix(f, ".csproj"@) || has_suffix(f, ".sln"@),
        seq!["dotnet@latest"@],
    ) + when(
        f.contains("pom.xml"@) || f.contains("build.gradle"@) || f.contains("build.gradle.kts"@) || f.contains(
            "gradlew"@,
        ),
        seq!["java@latest"@],
    ) + when(f.contains("Gemfile"@) || f.contains(".ruby-version"@), seq!["ruby@latest"@])
}

/// PHP with Composer, Terraform and just.
pub open spec fn other_tools(f: Seq<Seq<char>>) -> Seq<Seq<char>> {
    when(f.contains("composer.json"@), seq!["php@latest"@, "composer@latest"@]) + when(
        has_suffix(f, ".tf"@) || f.contains(".terraform.lock.hcl"@),
        seq!["terraform@latest"@],
    ) + when(f.contains("Justfile"@) || f.contains("justfile"@), seq!["just@latest"@])
}

/// The runtimes and package tools a project's root files call for.
pub open spec fn runtime_tools(f: Seq<Seq<char>>) -> Seq<Seq<char>> {
    rust_tools(f) + script_tools(f) + python_tools(f) + compiled_tools(f) + other_tools(f)
}

/// The language ids of the profile's languages that have one.
pub open spec fn profile_ids(names: Seq<Seq<char>>) -> Seq<Seq<char>>
    decreases names.len(),
{
    if names.len() == 0 {
        Seq::empty()
    } else {
        let rest = profile_ids(names.drop_last());
        match profile_language_spec(names.last()) {
            Some(id) => rest.push(id),
            None => rest,
        }
    }
}

/// The language ids of the files, but plain text.
pub open spec fn file_ids(files: Seq<Seq<char>>) -> Seq<Seq<char>>
    decreases files.len(),
{
    if files.len() == 0 {
        Seq::empty()
    } else {
        let rest = file_ids(files.drop_last());
        let id = language_slug_spec(files.last());
        if id == "plaintext"@ {
            rest
        } else {
            rest.push(id)
        }
    }
}

/// `tools` with each of `more` it lacks, in order.
pub open spec fn with_tools(tools: Seq<Seq<char>>, more: Seq<Seq<char>>) -> Seq<Seq<char>>
    decreases more.len(),
{
    if more.len() == 0 {
        tools
    } else {
        let before = with_tools(tools, more.drop_last());
        if before.contains(more.last()) {
            before
        } else {
            before.push(more.last())
        }
    }
}

/// `tools` with the mise tools of each server.
pub open spec fn with_server_tools(tools: Seq<Seq<char>>, servers: Seq<LanguageServerView>) -> Seq<Seq<char>>
    decreases servers.len(),
{
    if servers.len() == 0 {
        tools
    } else {
        with_tools(with_server_tools(tools, servers.drop_last()), servers.last().mise_tools)
    }
}

/// `tools` with those of the language servers for each language.
pub open spec fn with_language_tools(
    tools: Seq<Seq<char>>,
    ids: Seq<Seq<char>>,
    technologies: Seq<WorkspaceTechnology>,
) -> Seq<Seq<char>>
    decreases ids.len(),
{
    if ids.len() == 0 {
        tools
    } else {
        with_server_tools(
            with_language_tools(tools, ids.drop_last(), technologies),
            servers_for_language(ids.last(), technologies),
        )
    }
}

/// The language server a technology brings its own of.
pub open spec fn technology_server(t: WorkspaceTechnology) -> Option<Seq<char>> {
    match t {
        WorkspaceTechnology::Astro => Some("astro"@),
        WorkspaceTechnology::Svelte => Some("svelte"@),
        WorkspaceTechnology::Tailwind => Some("tailwindcss"@),
        WorkspaceTechnology::Vue => Some("vue"@),
        _ => None,
    }
}

/// `tools` with those of the servers the technologies bring.
pub open spec fn with_technology_tools(tools: Seq<Seq<char>>, technologies: Seq<WorkspaceTechnology>) -> Seq<
    Seq<char>,
>
    decreases technologies.len(),
{
    if technologies.len() == 0 {
        tools
    } else {
        let before = with_technology_tools(tools, technologies.drop_last());
        match technology_server(technologies.last()) {
            Some(id) => match find_server(language_server_table(), id) {
                Some(server) => with_tools(before, server.mise_tools),
                None => before,
            },
            None => before,
        }
    }
}

/// The tools mise installs for a project without its own mise
/// configuration: runtimes for its root files, then the tools of the
/// language servers for its languages (in ascending order of language id)
/// and for its technologies, each tool once.
pub open spec fn inferred_tools(entries: Seq<EntryView>, languages: Seq<Seq<char>>, technologies: Seq<WorkspaceTechnology>) -> Seq<
    Seq<char>,
> {
    let files = file_names(entries);
    let ids = sorted_unique(profile_ids(languages) + file_ids(files));
    with_technology_tools(with_language_tools(runtime_tools(files), ids, technologies), technologies)
}

pub open spec fn names_view(v: Seq<Vec<char>>) -> Seq<Seq<char>> {
    v.map_values(|n: Vec<char>| n@)
}

fn file_names_of(entries: &Vec<FileEntry>) -> (r: Vec<Vec<char>>)
    ensures
        names_view(r@) == file_names(entries_view(entries@)),
{
    let ghost ev = entries_view(entries@);
    let mut out: Vec<Vec<char>> = Vec::new();
    let mut k: usize = 0;
    proof {
        assert(ev.take(0) =~= Seq::<EntryView>::empty());
        assert(names_view(out@) =~= Seq::<Seq<char>>::empty());
    }
    while k < entries.len()
        invariant
            k <= entries@.len(),
            ev == entries_view(entries@),
            names_view(out@) == file_names(ev.take(k as int)),
        decreases entries@.len() - k,
    {
        proof {
            assert(ev.take(k + 1).drop_last() =~= ev.take(k as int));
            assert(ev.take(k + 1).last() == crate::tree::entry_view(entries@[k as int]));
        }
        if entries[k].kind == EntryKind::File {
            let ghost before = names_view(out@);
            let name = chars_of(entries[k].name.as_str());
            let ghost nv = name@;
            out.push(name);
            proof {
                assert(names_view(out@) =~= before.push(nv));
            }
        }
        k = k + 1;
    }
    proof {
        assert(ev.take(entries@.len() as int) =~= ev);
    }
    out
}

fn has_file(files: &Vec<Vec<char>>, name: &str) -> (r: bool)
    ensures
        r == names_view(files@).contains(name@),
{
    let target = chars_of(name);
    let ghost fv = names_view(files@);
    let mut k: usize = 0;
    while k < files.len()
        invariant
            k <= files@.len(),
            fv == names_view(files@),
            target@ == name@,
            forall|i: int| 0 <= i < k ==> fv[i] != name@,
        decreases files@.len() - k,
    {
        proof {
            assert(fv[k as int] == files@[k as int]@);
        }
        if seq_eq(&files[k], &target) {
            return true;
        }
        k = k + 1;
    }
    proof {
        if fv.contains(name@) {
            let i = choose|i: int| 0 <= i < fv.len() && fv[i] == name@;
        }
    }
    false
}

fn has_file_suffix(files: &Vec<Vec<char>>, suffix: &str) -> (r: bool)
    ensures
        r == has_suffix(names_view(files@), suffix@),
{
    let target = chars_of(suffix);
    let ghost fv = names_view(files@);
    let mut k: usize = 0;
    while k < files.len()
        invariant
            k <= files@.len(),
            fv == names_view(files@),
            target@ == suffix@,
            forall|i: int| 0 <= i < k ==> !ends_with(#[trigger] fv[i], suffix@),
        decreases files@.len() - k,
    {
        proof {
            assert(fv[k as int] == files@[k as int]@);
        }
        if seq_ends_with(&files[k], &target) {
            return true;
        }
        k = k + 1;
    }
    false
}

fn push_tool(tools: &mut Vec<&'static str>, tool: &'static str)
    ensures
        ids_view(final(tools)@) == if ids_view(old(tools)@).contains(tool@) {
            ids_view(old(tools)@)
        } else {
            ids_view(old(tools)@).push(tool@)
        },
{
    if !contains_id(tools, &chars_of(tool)) {
        let ghost before = ids_view(tools@);
        tools.push(tool);
        proof {
            assert(ids_view(tools@) =~= before.push(tool@));
        }
    }
}

/// Adds a server's mise tools that are missing (`push_server_tools`).
pub fn push_server_tools(tools: &mut Vec<&'static str>, server: &LanguageServerDefinition)
    ensures
        ids_view(final(tools)@) == with_tools(ids_view(old(tools)@), server@.mise_tools),
{
    let ghost start = ids_view(tools@);
    let ghost mt = server@.mise_tools;
    let mut k: usize = 0;
    proof {
        assert(mt.take(0) =~= Seq::<Seq<char>>::empty());
    }
    while k < server.mise_tools.len()
        invariant
            k <= server.mise_tools@.len(),
            mt == server@.mise_tools,
            mt.len() == server.mise_tools@.len(),
            forall|i: int| 0 <= i < mt.len() ==> #[trigger] mt[i] == server.mise_tools@[i]@,
            ids_view(tools@) == with_tools(start, mt.take(k as int)),
        decreases server.mise_tools@.len() - k,
    {
        proof {
            assert(mt.take(k + 1).drop_last() =~= mt.take(k as int));
            assert(mt.take(k + 1).last() == mt[k as int]);
        }
        push_tool(tools, server.mise_tools[k]);
        k = k + 1;
    }
    proof {
        assert(mt.take(mt.len() as int) =~= mt);
    }
}

fn add_rust_tools(tools: &mut Vec<&'static str>, files: &Vec<Vec<char>>)
    ensures
        ids_view(final(tools)@) == ids_view(old(tools)@) + rust_tools(names_view(files@)),
{
    let ghost start = ids_view(tools@);
    if has_file(files, "Cargo.toml") || has_file(files, "rust-toolchain") || has_file(files, "rust-toolchain.toml") {
        tools.push("rust@stable");
    }
    proof {
        assert(ids_view(tools@) =~= start + rust_tools(names_view(files@)));
    }
}

fn add_script_tools(tools: &mut Vec<&'static str>, files: &Vec<Vec<char>>)
    ensures
        ids_view(final(tools)@) == ids_view(old(tools)@) + script_tools(names_view(files@)),
{
    let ghost start = ids_view(tools@);
    if has_file(files, "deno.json") || has_file(files, "deno.jsonc") || has_file(files, "deno.lock") {
        tools.push("deno@latest");
    } else if has_file(files, "bun.lock") || has_file(files, "bun.lockb") {
        tools.push("bun@latest");
    } else if has_file(files, "package.json") {
        tools.push("node@lts");
        if has_file(files, "pnpm-lock.yaml") {
            tools.push("pnpm@latest");
        } else if has_file(files, "yarn.lock") {
            tools.push("yarn@latest");
        }
    }
    proof {
        assert(ids_view(tools@) =~= start + script_tools(names_view(files@)));
    }
}

fn add_python_tools(tools: &mut Vec<&'static str>, files: &Vec<Vec<char>>)
    ensures
        ids_view(final(tools)@) == ids_view(old(tools)@) + python_tools(names_view(files@)),
{
    let ghost start = ids_view(tools@);
    if has_file(files, "pyproject.toml") || has_file(files, "requirements.txt") || has_file(files, "setup.py") || has_file(
        files,
        "setup.cfg",
    ) || has_file(files, "Pipfile") {
        tools.push("python@latest");
        if has_file(files, "uv.lock") {
            tools.push("uv@latest");
        }
    }
    proof {
        assert(ids_view(tools@) =~= start + python_tools(names_view(files@)));
    }
}

fn add_compiled_tools(tools: &mut Vec<&'static str>, files: &Vec<Vec<char>>)
    ensures
        ids_view(final(tools)@) == ids_view(old(tools)@) + compiled_tools(names_view(files@)),
{
    let ghost start = ids_view(tools@);
    let go = has_file(files, "go.mod") || has_file(files, "go.work");
    let dotnet = has_file(files, "global.json") || has_file_suffix(files, ".csproj") || has_file_suffix(files, ".sln");
    let java = has_file(files, "pom.xml") || has_file(files, "build.gradle") || has_file(files, "build.gradle.kts")
        || has_file(files, "gradlew");
    let ruby = has_file(files, "Gemfile") || has_file(files, ".ruby-version");
    if go {
        tools.push("go@latest");
    }
    let ghost a = ids_view(tools@);
    if dotnet {
        tools.push("dotnet@latest");
    }
    let ghost b = ids_view(tools@);
    if java {
        tools.push("java@latest");
    }
    let ghost c = ids_view(tools@);
    if ruby {
        tools.push("ruby@latest");
    }
    proof {
        let f = names_view(files@);
        assert(a =~= start + when(go, seq!["go@latest"@]));
        assert(b =~= a + when(dotnet, seq!["dotnet@latest"@]));
        assert(c =~= b + when(java, seq!["java@latest"@]));
        assert(ids_view(tools@) =~= c + when(ruby, seq!["ruby@latest"@]));
        assert(ids_view(tools@) =~= start + compiled_tools(f));
    }
}

fn add_other_tools(tools: &mut Vec<&'static str>, files: &Vec<Vec<char>>)
    ensures
        ids_view(final(tools)@) == ids_view(old(tools)@) + other_tools(names_view(files@)),
{
    let ghost start = ids_view(tools@);
    let php = has_file(files, "composer.json");
    let terraform = has_file_suffix(files, ".tf") || has_file(files, ".terraform.lock.hcl");
    let just = has_file(files, "Justfile") || has_file(files, "justfile");
    if php {
        tools.push("php@latest");
        tools.push("composer@latest");
    }
    let ghost a = ids_view(tools@);
    if terraform {
        tools.push("terraform@latest");
    }
    let ghost b = ids_view(tools@);
    if just {
        tools.push("just@latest");
    }
    proof {
        assert(a =~= start + when(php, seq!["php@latest"@, "composer@latest"@]));
        assert(b =~= a + when(terraform, seq!["terraform@latest"@]));
        assert(ids_view(tools@) =~= b + when(just, seq!["just@latest"@]));
        assert(ids_view(tools@) =~= start + other_tools(names_view(files@)));
    }
}

fn runtime_tools_of(files: &Vec<Vec<char>>) -> (r: Vec<&'static str>)
    ensures
        ids_view(r@) == runtime_tools(names_view(files@)),
{
    let mut tools: Vec<&'static str> = Vec::new();
    proof {
        assert(ids_view(tools@) =~= Seq::<Seq<char>>::empty());
    }
    add_rust_tools(&mut tools, files);
    add_script_tools(&mut tools, files);
    add_python_tools(&mut tools, files);
    add_compiled_tools(&mut tools, files);
    add_other_tools(&mut tools, files);
    proof {
        let f = names_view(files@);
        assert(ids_view(tools@) =~= runtime_tools(f));
    }
    tools
}

fn language_ids(languages: &Vec<WorkspaceLanguage>, files: &Vec<Vec<char>>) -> (r: Vec<&'static str>)
    ensures
        ids_view(r@) == sorted_unique(
            profile_ids(languages@.map_values(|l: WorkspaceLanguage| l.name@)) + file_ids(names_view(files@)),
        ),
{
    let ghost lv = languages@.map_values(|l: WorkspaceLanguage| l.name@);
    let ghost fv = names_view(files@);
    let mut ids: Vec<&'static str> = Vec::new();
    let mut k: usize = 0;
    proof {
        assert(lv.take(0) =~= Seq::<Seq<char>>::empty());
        assert(ids_view(ids@) =~= Seq::<Seq<char>>::empty());
    }
    while k < languages.len()
        invariant
            k <= languages@.len(),
            lv == languages@.map_values(|l: WorkspaceLanguage| l.name@),
            ids_view(ids@) == sorted_unique(profile_ids(lv.take(k as int))),
        decreases languages@.len() - k,
    {
        proof {
            assert(lv.take(k + 1).drop_last() =~= lv.take(k as int));
            assert(lv.take(k + 1).last() == languages@[k as int].name@);
        }
        let ghost prev = profile_ids(lv.take(k as int));
        match profile_language_id(languages[k].name.as_str()) {
            Some(id) => {
                insert_sorted(&mut ids, id);
                proof {
                    assert(profile_ids(lv.take(k + 1)) == prev.push(id@));
                    assert(prev.push(id@).drop_last() =~= prev);
                }
            },
            None => {
                proof {
                    assert(profile_ids(lv.take(k + 1)) == prev);
                }
            },
        }
        k = k + 1;
    }
    proof {
        assert(lv.take(languages@.len() as int) =~= lv);
        assert(fv.take(0) =~= Seq::<Seq<char>>::empty());
        assert(profile_ids(lv) + file_ids(fv.take(0)) =~= profile_ids(lv));
    }
    let plain = chars_of("plaintext");
    let mut j: usize = 0;
    while j < files.len()
        invariant
            j <= files@.len(),
            fv == names_view(files@),
            plain@ == "plaintext"@,
            ids_view(ids@) == sorted_unique(profile_ids(lv) + file_ids(fv.take(j as int))),
        decreases files@.len() - j,
    {
        proof {
            assert(fv.take(j + 1).drop_last() =~= fv.take(j as int));
            assert(fv.take(j + 1).last() == files@[j as int]@);
        }
        let name = string_from_chars(&files[j]);
        let id = language_slug_for_path(name.as_str());
        if !seq_eq(&chars_of(id), &plain) {
            insert_sorted(&mut ids, id);
            proof {
                let prev = profile_ids(lv) + file_ids(fv.take(j as int));
                assert(file_ids(fv.take(j + 1)) == file_ids(fv.take(j as int)).push(id@));
                assert(profile_ids(lv) + file_ids(fv.take(j + 1)) =~= prev.push(id@));
                assert(prev.push(id@).drop_last() =~= prev);
            }
        } else {
            proof {
                assert(profile_ids(lv) + file_ids(fv.take(j + 1)) =~= profile_ids(lv) + file_ids(fv.take(j as int)));
            }
        }
        j = j + 1;
    }
    proof {
        assert(fv.take(files@.len() as int) =~= fv);
    }
    ids
}

/// The tools mise installs for a project without its own mise
/// configuration (`infer_tools`).
pub fn infer_tools(entries: &Vec<FileEntry>, profile: &WorkspaceProfile) -> (r: Vec<&'static str>)
    ensures
        ids_view(r@) == inferred_tools(
            entries_view(entries@),
            profile.languages@.map_values(|l: WorkspaceLanguage| l.name@),
            profile.technologies@,
        ),
{
    let files = file_names_of(entries);
    let mut tools = runtime_tools_of(&files);
    let ids = language_ids(&profile.languages, &files);
    let ghost iv = ids_view(ids@);
    let ghost techs = profile.technologies@;
    let ghost start = ids_view(tools@);
    let mut k: usize = 0;
    proof {
        assert(iv.take(0) =~= Seq::<Seq<char>>::empty());
    }
    while k < ids.len()
        invariant
            k <= ids@.len(),
            iv == ids_view(ids@),
            techs == profile.technologies@,
            ids_view(tools@) == with_language_tools(start, iv.take(k as int), techs),
        decreases ids@.len() - k,
    {
        proof {
            assert(iv.take(k + 1).drop_last() =~= iv.take(k as int));
            assert(iv.take(k + 1).last() == ids@[k as int]@);
        }
        let servers = language_servers_for_language(ids[k], profile.technologies.as_slice());
        let ghost sv = servers@.map_values(|d: LanguageServerDefinition| d@);
        let ghost before = ids_view(tools@);
        let mut j: usize = 0;
        proof {
            assert(sv.take(0) =~= Seq::<LanguageServerView>::empty());
        }
        while j < servers.len()
            invariant
                j <= servers@.len(),
                sv == servers@.map_values(|d: LanguageServerDefinition| d@),
                ids_view(tools@) == with_server_tools(before, sv.take(j as int)),
            decreases servers@.len() - j,
        {
            proof {
                assert(sv.take(j + 1).drop_last() =~= sv.take(j as int));
                assert(sv.take(j + 1).last() == servers@[j as int]@);
            }
            push_server_tools(&mut tools, &servers[j]);
            j = j + 1;
        }
        proof {
            assert(sv.take(servers@.len() as int) =~= sv);
        }
        k = k + 1;
    }
    proof {
        assert(iv.take(ids@.len() as int) =~= iv);
    }
    let ghost mid = ids_view(tools@);
    let mut t: usize = 0;
    proof {
        assert(techs.take(0) =~= Seq::<WorkspaceTechnology>::empty());
    }
    while t < profile.technologies.len()
        invariant
            t <= profile.technologies@.len(),
            techs == profile.technologies@,
            ids_view(tools@) == with_technology_tools(mid, techs.take(t as int)),
        decreases profile.technologies@.len() - t,
    {
        proof {
            assert(techs.take(t + 1).drop_last() =~= techs.take(t as int));
            assert(techs.take(t + 1).last() == techs[t as int]);
        }
        let server_id = match profile.technologies[t] {
            WorkspaceTechnology::Astro => Some("astro"),
            WorkspaceTechnology::Svelte => Some("svelte"),
            WorkspaceTechnology::Tailwind => Some("tailwindcss"),
            WorkspaceTechnology::Vue => Some("vue"),
            _ => None,
        };
        match server_id {
            Some(id) => match language_server_by_id(id) {
                Some(server) => push_server_tools(&mut tools, &server),
                None => {},
            },
            None => {},
        }
        t = t + 1;
    }
    proof {
        assert(techs.take(profile.technologies@.len() as int) =~= techs);
    }
    tools
}

/// The script that updates a project's tools from its own configuration.
pub const UPDATE_TOOLS_COMMAND: &'static str = "if ! command -v mise >/dev/null 2>&1; then
    echo 'mise is not installed in this runtime.' >&2
    exit 127
fi

mise trust --yes
mise upgrade --local";

/// The check that stops a script when mise is missing.
pub const MISE_CHECK: &'static str = "if ! command -v mise >/dev/null 2>&1; then
    echo 'mise is not installed in this runtime.' >&2
    exit 127
fi";

/// The script that installs the tools a project configures itself.
pub const CONFIGURED_BOOTSTRAP_COMMAND: &'static str = "if ! command -v mise >/dev/null 2>&1; then
    echo 'mise is not installed in this runtime.' >&2
    exit 127
fi

echo 'Found a mise-compatible project configuration.'
mise trust --yes
mise install --yes
echo 'Project toolchain is ready.'";

/// `parts` joined by single spaces.
pub open spec fn joined_by_space(parts: Seq<Seq<char>>) -> Seq<char>
    decreases parts.len(),
{
    if parts.len() == 0 {
        Seq::empty()
    } else if parts.len() == 1 {
        parts[0]
    } else {
        joined_by_space(parts.drop_last()) + " "@ + parts.last()
    }
}

/// The mise command that pins the inferred tools in the checkout's local
/// configuration, or nothing when none were inferred.
pub open spec fn mise_command(tools: Seq<Seq<char>>) -> Seq<char> {
    if tools.len() == 0 {
        Seq::empty()
    } else {
        "mise use --yes --env local "@ + joined_by_space(tools)
    }
}

/// The mise command for inferred tools (`inferred_mise_command`).
pub fn inferred_mise_command(tools: &Vec<&'static str>) -> (r: String)
    ensures
        r@ == mise_command(ids_view(tools@)),
{
    if tools.len() == 0 {
        return String::new();
    }
    let ghost tv = ids_view(tools@);
    let mut joined: Vec<char> = chars_of(tools[0]);
    let mut k: usize = 1;
    proof {
        assert(tv.take(1) =~= seq![tv[0]]);
    }
    while k < tools.len()
        invariant
            1 <= k <= tools@.len(),
            tv == ids_view(tools@),
            joined@ == joined_by_space(tv.take(k as int)),
        decreases tools@.len() - k,
    {
        proof {
            assert(tv.take(k + 1).drop_last() =~= tv.take(k as int));
            assert(tv.take(k + 1).last() == tools@[k as int]@);
        }
        let ghost before = joined@;
        joined.push(' ');
        joined = concat(&joined, &chars_of(tools[k]));
        proof {
            reveal_strlit(" ");
            assert(joined@ =~= before + " "@ + tools@[k as int]@);
        }
        k = k + 1;
    }
    proof {
        assert(tv.take(tools@.len() as int) =~= tv);
    }
    let command = concat(&chars_of("mise use --yes --env local "), &joined);
    string_from_chars(&command)
}

/// The script that installs inferred tools: it stops without mise, keeps
/// the local configuration out of Git in a checkout, and runs `command`.
pub open spec fn bootstrap_script(command: Seq<char>) -> Seq<char> {
    MISE_CHECK@ + "

if git rev-parse --is-inside-work-tree >/dev/null 2>&1; then
    exclude_path=$(git rev-parse --git-path info/exclude)
    for ignored in mise.local.toml mise.local.lock; do
        if ! grep -qxF \"$ignored\" \"$exclude_path\"; then
            printf '%s\\n' \"$ignored\" >> \"$exclude_path\"
        fi
    done
fi
echo 'Writing mise.local.toml so the inferred setup stays local to this checkout.'
"@ + trim(command) + "
echo 'Project toolchain is ready.'"@
}

/// The script that installs inferred tools (`inferred_bootstrap_command`).
pub fn inferred_bootstrap_command(command: &str) -> (r: String)
    ensures
        r@ == bootstrap_script(command@),
{
    let head = concat(
        &chars_of(MISE_CHECK),
        &chars_of(
            "

if git rev-parse --is-inside-work-tree >/dev/null 2>&1; then
    exclude_path=$(git rev-parse --git-path info/exclude)
    for ignored in mise.local.toml mise.local.lock; do
        if ! grep -qxF \"$ignored\" \"$exclude_path\"; then
            printf '%s\\n' \"$ignored\" >> \"$exclude_path\"
        fi
    done
fi
echo 'Writing mise.local.toml so the inferred setup stays local to this checkout.'
",
        ),
    );
    let body = concat(&head, &trimmed(&chars_of(command)));
    let all = concat(&body, &chars_of("
echo 'Project toolchain is ready.'"));
    string_from_chars(&all)
}

/// The names of mise's configuration files at a project's root.
pub open spec fn root_mise_config(name: Seq<char>) -> bool {
    name == "mise.toml"@ || name == ".mise.toml"@ || name == "mise.local.toml"@ || name == ".mise.local.toml"@ || name
        == ".tool-versions"@
}

/// Whether a project's root holds a mise configuration file
/// (`has_root_mise_config`).
pub fn has_root_mise_config(entries: &Vec<FileEntry>) -> (r: bool)
    ensures
        r == exists|i: int|
            0 <= i < entries@.len() && entries@[i].kind == EntryKind::File && root_mise_config(
                #[trigger] entries@[i].name@,
            ),
{
    let mut k: usize = 0;
    while k < entries.len()
        invariant
            k <= entries@.len(),
            forall|i: int| 0 <= i < k ==> !(entries@[i].kind == EntryKind::File && root_mise_config(#[trigger] entries@[i].name@)),
        decreases entries@.len() - k,
    {
        let name = chars_of(entries[k].name.as_str());
        let config = seq_eq(&name, &chars_of("mise.toml")) || seq_eq(&name, &chars_of(".mise.toml")) || seq_eq(
            &name,
            &chars_of("mise.local.toml"),
        ) || seq_eq(&name, &chars_of(".mise.local.toml")) || seq_eq(&name, &chars_of(".tool-versions"));
        if entries[k].kind == EntryKind::File && config {
            return true;
        }
        k = k + 1;
    }
    false
}

/// Whether a listing holds a file named `name`.
pub fn contains_file(entries: &Vec<FileEntry>, name: &str) -> (r: bool)
    ensures
        r == exists|i: int| 0 <= i < entries@.len() && entries@[i].kind == EntryKind::File && #[trigger] entries@[i].name@ == name@,
{
    let target = chars_of(name);
    let mut k: usize = 0;
    while k < entries.len()
        invariant
            k <= entries@.len(),
            target@ == name@,
            forall|i: int| 0 <= i < k ==> !(entries@[i].kind == EntryKind::File && #[trigger] entries@[i].name@ == name@),
        decreases entries@.len() - k,
    {
        if entries[k].kind == EntryKind::File && seq_eq(&chars_of(entries[k].name.as_str()), &target) {
            return true;
        }
        k = k + 1;
    }
    false
}

/// Whether a listing holds an entry of any kind named `name`.
pub fn contains_entry(entries: &Vec<FileEntry>, name: &str) -> (r: bool)
    ensures
        r == exists|i: int| 0 <= i < entries@.len() && #[trigger] entries@[i].name@ == name@,
{
    let target = chars_of(name);
    let mut k: usize = 0;
    while k < entries.len()
        invariant
            k <= entries@.len(),
            target@ == name@,
            forall|i: int| 0 <= i < k ==> #[trigger] entries@[i].name@ != name@,
        decreases entries@.len() - k,
    {
        if seq_eq(&chars_of(entries[k].name.as_str()), &target) {
            return true;
        }
        k = k + 1;
    }
    false
}

/// Whether a file's extension is `toml` in any ASCII case.
pub open spec fn toml_name(name: Seq<char>) -> bool {
    let k = crate::agent_export::last_dot(name);
    k > 0 && crate::text::lower_seq(name.skip(k + 1)) == "toml"@
}

/// Whether a listing holds a `.toml` file (`conf.d`).
pub fn contains_toml_file(entries: &Vec<FileEntry>) -> (r: bool)
    ensures
        r == exists|i: int| 0 <= i < entries@.len() && entries@[i].kind == EntryKind::File && toml_name(#[trigger] entries@[i].name@),
{
    let mut k: usize = 0;
    while k < entries.len()
        invariant
            k <= entries@.len(),
            forall|i: int| 0 <= i < k ==> !(entries@[i].kind == EntryKind::File && toml_name(#[trigger] entries@[i].name@)),
        decreases entries@.len() - k,
    {
        if entries[k].kind == EntryKind::File && has_toml_extension(entries[k].name.as_str()) {
            return true;
        }
        k = k + 1;
    }
    false
}

fn has_toml_extension(name: &str) -> (r: bool)
    ensures
        r == toml_name(name@),
{
    let chars = chars_of(name);
    let mut k: usize = chars.len();
    while k > 0 && chars[k - 1] != '.'
        invariant
            k <= chars@.len(),
            chars@ == name@,
            forall|j: int| k <= j < chars@.len() ==> chars@[j] != '.',
        decreases k,
    {
        k = k - 1;
    }
    proof {
        crate::agent_export::lemma_last_dot(chars@);
        assert(crate::agent_export::last_dot(chars@) == k - 1) by {
            if crate::agent_export::last_dot(chars@) != k - 1 {
                if k > 0 {
                    assert(chars@[k - 1] == '.');
                }
            }
        }
    }
    if k < 2 {
        return false;
    }
    let extension = crate::text::to_ascii_lowercase(&crate::text::slice_to_vec(&chars, k, chars.len()));
    proof {
        assert(chars@.subrange(k as int, chars@.len() as int) =~= chars@.skip(k as int));
    }
    seq_eq(&extension, &chars_of("toml"))
}

/// Whether a language badge repeats what a technology badge shows
/// (`language_represented_by_technology`).
pub open spec fn represented_by(language: Seq<char>, t: WorkspaceTechnology) -> bool {
    match t {
        WorkspaceTechnology::Astro => language == "Astro"@,
        WorkspaceTechnology::Docker => language == "Dockerfile"@,
        WorkspaceTechnology::Graphql => language == "GraphQL"@,
        WorkspaceTechnology::Just => language == "Just"@,
        WorkspaceTechnology::Nginx => language == "Nginx"@,
        WorkspaceTechnology::Prisma => language == "Prisma"@,
        WorkspaceTechnology::Svelte => language == "Svelte"@,
        WorkspaceTechnology::Terraform => language == "HCL"@ || language == "Terraform Template"@,
        WorkspaceTechnology::Vue => language == "Vue"@,
        _ => false,
    }
}

pub fn language_represented_by_technology(language: &str, technologies: &[WorkspaceTechnology]) -> (r: bool)
    ensures
        r == exists|i: int| 0 <= i < technologies@.len() && represented_by(language@, #[trigger] technologies@[i]),
{
    let name = chars_of(language);
    let mut k: usize = 0;
    while k < technologies.len()
        invariant
            k <= technologies@.len(),
            name@ == language@,
            forall|i: int| 0 <= i < k ==> !represented_by(language@, #[trigger] technologies@[i]),
        decreases technologies@.len() - k,
    {
        let hit = match technologies[k] {
            WorkspaceTechnology::Astro => seq_eq(&name, &chars_of("Astro")),
            WorkspaceTechnology::Docker => seq_eq(&name, &chars_of("Dockerfile")),
            WorkspaceTechnology::Graphql => seq_eq(&name, &chars_of("GraphQL")),
            WorkspaceTechnology::Just => seq_eq(&name, &chars_of("Just")),
            WorkspaceTechnology::Nginx => seq_eq(&name, &chars_of("Nginx")),
            WorkspaceTechnology::Prisma => seq_eq(&name, &chars_of("Prisma")),
            WorkspaceTechnology::Svelte => seq_eq(&name, &chars_of("Svelte")),
            WorkspaceTechnology::Terraform => seq_eq(&name, &chars_of("HCL")) || seq_eq(&name, &chars_of("Terraform Template")),
            WorkspaceTechnology::Vue => seq_eq(&name, &chars_of("Vue")),
            _ => false,
        };
        if hit {
            return true;
        }
        k = k + 1;
    }
    false
}

/// Which directory the search for a nested mise configuration lists next.
#[derive(Clone, Copy, Debug, PartialEq, Eq, Structural)]
pub enum MiseStep {
    /// `mise`, for its `config.toml`.
    Mise,
    /// `.mise`, for its `config.toml`.
    DotMise,
    /// `.config`, for `mise.toml` or a `mise` directory.
    Config,
    /// `.config/mise`, for `config.toml` or a `conf.d` directory.
    ConfigMise,
    /// `.config/mise/conf.d`, for any `.toml` file.
    ConfD,
}

/// What the search does next: list a directory of the project, or stop
/// with its answer.
#[derive(Clone, Copy, Debug, PartialEq, Eq, Structural)]
pub enum MiseProbe {
    List(MiseStep),
    Done(bool),
}

/// The directory each step lists.
pub open spec fn step_path(step: MiseStep) -> Seq<char> {
    match step {
        MiseStep::Mise => "mise"@,
        MiseStep::DotMise => ".mise"@,
        MiseStep::Config => ".config"@,
        MiseStep::ConfigMise => ".config/mise"@,
        MiseStep::ConfD => ".config/mise/conf.d"@,
    }
}

/// The directory a step lists.
pub fn mise_step_path(step: MiseStep) -> (r: &'static str)
    ensures
        r@ == step_path(step),
{
    match step {
        MiseStep::Mise => "mise",
        MiseStep::DotMise => ".mise",
        MiseStep::Config => ".config",
        MiseStep::ConfigMise => ".config/mise",
        MiseStep::ConfD => ".config/mise/conf.d",
    }
}

pub open spec fn has_entry(entries: Seq<FileEntry>, name: Seq<char>) -> bool {
    exists|i: int| 0 <= i < entries.len() && #[trigger] entries[i].name@ == name
}

pub open spec fn has_file_entry(entries: Seq<FileEntry>, name: Seq<char>) -> bool {
    exists|i: int| 0 <= i < entries.len() && entries[i].kind == EntryKind::File && #[trigger] entries[i].name@ == name
}

pub open spec fn has_toml_entry(entries: Seq<FileEntry>) -> bool {
    exists|i: int| 0 <= i < entries.len() && entries[i].kind == EntryKind::File && toml_name(#[trigger] entries[i].name@)
}

/// The search after the `mise` directories: `.config` when the root has
/// one.
pub open spec fn after_mise_dirs(root: Seq<FileEntry>) -> MiseProbe {
    if has_entry(root, ".config"@) {
        MiseProbe::List(MiseStep::Config)
    } else {
        MiseProbe::Done(false)
    }
}

/// The search from `.mise` on.
pub open spec fn from_dot_mise(root: Seq<FileEntry>) -> MiseProbe {
    if has_entry(root, ".mise"@) {
        MiseProbe::List(MiseStep::DotMise)
    } else {
        after_mise_dirs(root)
    }
}

/// The first step of the search for a nested mise configuration, from the
/// root listing.
pub open spec fn first_probe(root: Seq<FileEntry>) -> MiseProbe {
    if has_entry(root, "mise"@) {
        MiseProbe::List(MiseStep::Mise)
    } else {
        from_dot_mise(root)
    }
}

/// The step after listing the directory of `step`.
pub open spec fn next_probe(root: Seq<FileEntry>, step: MiseStep, listing: Seq<FileEntry>) -> MiseProbe {
    match step {
        MiseStep::Mise => if has_file_entry(listing, "config.toml"@) {
            MiseProbe::Done(true)
        } else {
            from_dot_mise(root)
        },
        MiseStep::DotMise => if has_file_entry(listing, "config.toml"@) {
            MiseProbe::Done(true)
        } else {
            after_mise_dirs(root)
        },
        MiseStep::Config => if has_file_entry(listing, "mise.toml"@) {
            MiseProbe::Done(true)
        } else if has_entry(listing, "mise"@) {
            MiseProbe::List(MiseStep::ConfigMise)
        } else {
            MiseProbe::Done(false)
        },
        MiseStep::ConfigMise => if has_file_entry(listing, "config.toml"@) {
            MiseProbe::Done(true)
        } else if has_entry(listing, "conf.d"@) {
            MiseProbe::List(MiseStep::ConfD)
        } else {
            MiseProbe::Done(false)
        },
        MiseStep::ConfD => MiseProbe::Done(has_toml_entry(listing)),
    }
}

fn probe_after_mise_dirs(root: &Vec<FileEntry>) -> (r: MiseProbe)
    ensures
        r == after_mise_dirs(root@),
{
    if contains_entry(root, ".config") {
        MiseProbe::List(MiseStep::Config)
    } else {
        MiseProbe::Done(false)
    }
}

fn probe_from_dot_mise(root: &Vec<FileEntry>) -> (r: MiseProbe)
    ensures
        r == from_dot_mise(root@),
{
    if contains_entry(root, ".mise") {
        MiseProbe::List(MiseStep::DotMise)
    } else {
        probe_after_mise_dirs(root)
    }
}

/// Where the search for a nested mise configuration starts.
pub fn first_mise_probe(root: &Vec<FileEntry>) -> (r: MiseProbe)
    ensures
        r == first_probe(root@),
{
    if contains_entry(root, "mise") {
        MiseProbe::List(MiseStep::Mise)
    } else {
        probe_from_dot_mise(root)
    }
}

/// Where the search goes after listing the directory of `step`.
pub fn next_mise_probe(root: &Vec<FileEntry>, step: MiseStep, listing: &Vec<FileEntry>) -> (r: MiseProbe)
    ensures
        r == next_probe(root@, step, listing@),
{
    match step {
        MiseStep::Mise => if contains_file(listing, "config.toml") {
            MiseProbe::Done(true)
        } else {
            probe_from_dot_mise(root)
        },
        MiseStep::DotMise => if contains_file(listing, "config.toml") {
            MiseProbe::Done(true)
        } else {
            probe_after_mise_dirs(root)
        },
        MiseStep::Config => if contains_file(listing, "mise.toml") {
            MiseProbe::Done(true)
        } else if contains_entry(listing, "mise") {
            MiseProbe::List(MiseStep::ConfigMise)
        } else {
            MiseProbe::Done(false)
        },
        MiseStep::ConfigMise => if contains_file(listing, "config.toml") {
            MiseProbe::Done(true)
        } else if contains_entry(listing, "conf.d") {
            MiseProbe::List(MiseStep::ConfD)
        } else {
            MiseProbe::Done(false)
        },
        MiseStep::ConfD => MiseProbe::Done(contains_toml_file(listing)),
    }
}

/// The answer for a project that configures mise at its root; other
/// projects need the nested search.
#[derive(Debug, PartialEq, Eq)]
pub enum BootstrapPlan {
    Configured,
    Inferred(Vec<&'static str>),
}

/// The plan for a project whose root listing and nested search are known.
pub fn bootstrap_plan(root: &Vec<FileEntry>, nested_config: bool, profile: &WorkspaceProfile) -> (r: BootstrapPlan)
    ensures
        match r {
            BootstrapPlan::Configured => (exists|i: int|
                0 <= i < root@.len() && root@[i].kind == EntryKind::File && root_mise_config(#[trigger] root@[i].name@))
                || nested_config,
            BootstrapPlan::Inferred(tools) => !(exists|i: int|
                0 <= i < root@.len() && root@[i].kind == EntryKind::File && root_mise_config(#[trigger] root@[i].name@))
                && !nested_config && ids_view(tools@) == inferred_tools(
                entries_view(root@),
                profile.languages@.map_values(|l: WorkspaceLanguage| l.name@),
                profile.technologies@,
            ),
        },
{
    if has_root_mise_config(root) || nested_config {
        BootstrapPlan::Configured
    } else {
        BootstrapPlan::Inferred(infer_tools(root, profile))
    }
}

/// `a / b` rounded toward zero, as Rust divides integers.
pub open spec fn div_toward_zero(a: int, b: int) -> int {
    if a >= 0 {
        a / b
    } else {
        -((-a) / b)
    }
}

/// An integer in decimal, with a minus sign when negative.
pub open spec fn signed_decimal(n: int) -> Seq<char> {
    if n < 0 {
        "-"@ + decimal((-n) as nat)
    } else {
        decimal(n as nat)
    }
}

/// `now_ms - timestamp`, held within the `i64` range.
pub open spec fn saturating_elapsed(now_ms: i64, timestamp: i64) -> int {
    let d = now_ms - timestamp;
    if d > i64::MAX {
        i64::MAX as int
    } else if d < i64::MIN {
        i64::MIN as int
    } else {
        d
    }
}

/// When a project was last opened, seen at `now_ms`: "Just now" within a
/// minute, then minutes, hours and days ago. A time ahead of the clock
/// counts whole days back, toward zero.
pub open spec fn recent_text(now_ms: i64, timestamp: i64) -> Seq<char> {
    let minutes = div_toward_zero(saturating_elapsed(now_ms, timestamp), 60000);
    if minutes == 0 {
        "Just now"@
    } else if 1 <= minutes <= 59 {
        decimal(minutes as nat) + "m ago"@
    } else if 60 <= minutes <= 1439 {
        decimal((minutes / 60) as nat) + "h ago"@
    } else {
        signed_decimal(div_toward_zero(minutes, 1440)) + "d ago"@
    }
}

fn append(text: &mut Vec<char>, suffix: &str)
    ensures
        final(text)@ == old(text)@ + suffix@,
{
    let s = chars_of(suffix);
    let mut i: usize = 0;
    while i < s.len()
        invariant
            i <= s@.len(),
            s@ == suffix@,
            text@ == old(text)@ + s@.take(i as int),
        decreases s@.len() - i,
    {
        text.push(s[i]);
        i = i + 1;
        proof {
            assert(s@.take(i as int) =~= s@.take(i - 1).push(s@[i - 1]));
        }
    }
    proof {
        assert(s@.take(s@.len() as int) =~= s@);
    }
}

/// The "last opened" label of a project at `now_ms`.
pub fn format_recent(now_ms: i64, timestamp: i64) -> (r: String)
    ensures
        r@ == recent_text(now_ms, timestamp),
{
    let d: i128 = now_ms as i128 - timestamp as i128;
    let elapsed: i64 = if d > 9223372036854775807i128 {
        9223372036854775807i64
    } else if d < -9223372036854775808i128 {
        -9223372036854775808i64
    } else {
        d as i64
    };
    proof {
        assert(elapsed == saturating_elapsed(now_ms, timestamp));
    }
    let minutes: i64 = if elapsed >= 0 {
        elapsed / 60000
    } else {
        let m: i64 = (0 - (elapsed + 1)) / 60000;
        proof {
            assert((-elapsed) / 60000 == m || (-elapsed) / 60000 == m + 1) by (nonlinear_arith)
                requires
                    elapsed < 0,
                    m == (-(elapsed + 1)) / 60000,
            ;
        }
        if (0 - (elapsed + 1)) % 60000 == 59999 {
            0 - (m + 1)
        } else {
            0 - m
        }
    };
    proof {
        if elapsed < 0 {
            let a = -elapsed;
            let b = -(elapsed + 1);
            assert(a == b + 1);
            assert(a / 60000 == if b % 60000 == 59999 { b / 60000 + 1 } else { b / 60000 }) by (nonlinear_arith)
                requires
                    a == b + 1,
                    b >= 0,
            ;
        }
        assert(minutes == div_toward_zero(elapsed as int, 60000));
    }
    if minutes == 0 {
        return "Just now".to_owned();
    }
    let mut text: Vec<char>;
    if 1 <= minutes && minutes <= 59 {
        text = format_decimal(minutes as u64);
        append(&mut text, "m ago");
    } else if 60 <= minutes && minutes <= 1439 {
        text = format_decimal((minutes / 60) as u64);
        append(&mut text, "h ago");
    } else {
        let days: i64 = if minutes >= 0 {
            minutes / 1440
        } else {
            0 - ((0 - minutes) / 1440)
        };
        proof {
            assert(days == div_toward_zero(minutes as int, 1440));
        }
        if days < 0 {
            text = chars_of("-");
            let digits = format_decimal((0 - days) as u64);
            let mut k: usize = 0;
            let ghost head = text@;
            while k < digits.len()
                invariant
                    k <= digits@.len(),
                    text@ == head + digits@.take(k as int),
                decreases digits@.len() - k,
            {
                text.push(digits[k]);
                k = k + 1;
                proof {
                    assert(digits@.take(k as int) =~= digits@.take(k - 1).push(digits@[k - 1]));
                }
            }
            proof {
                assert(digits@.take(digits@.len() as int) =~= digits@);
            }
        } else {
            text = format_decimal(days as u64);
        }
        append(&mut text, "d ago");
    }
    string_from_chars(&text)
}

/// The "last opened" label of a project by the clock; a clock it cannot
/// read counts as no time passed.
pub fn recent_label(timestamp: i64) -> (r: String)
    ensures
        exists|now: i64| r@ == recent_text(now, timestamp),
{
    let now: i64 = match crate::notifications::clock_ms() {
        Some(n) => if n <= 9223372036854775807u64 {
            n as i64
        } else {
            timestamp
        },
        None => timestamp,
    };
    format_recent(now, timestamp)
}


/// The smallest share of a project's code, in thousandths, for which a
/// language gets a badge.
pub const MIN_LANGUAGE_PERMILLE: u64 = 20;

/// Most badges of each kind a project row shows.
pub const MAX_BADGES: usize = 5;

pub open spec fn saturating(n: int) -> u64 {
    if n > u64::MAX {
        u64::MAX
    } else {
        n as u64
    }
}

/// The bytes of all languages together, held within `u64`.
pub open spec fn language_total(langs: Seq<WorkspaceLanguage>) -> int
    decreases langs.len(),
{
    if langs.len() == 0 {
        0
    } else {
        language_total(langs.drop_last()) + langs.last().bytes
    }
}

proof fn lemma_language_total_nonnegative(langs: Seq<WorkspaceLanguage>)
    ensures
        language_total(langs) >= 0,
    decreases langs.len(),
{
    if langs.len() > 0 {
        lemma_language_total_nonnegative(langs.drop_last());
    }
}

/// The bytes of code a profile counts.
pub fn total_language_bytes(profile: &WorkspaceProfile) -> (r: u64)
    ensures
        r == saturating(language_total(profile.languages@)),
{
    let mut total: u64 = 0;
    let mut i: usize = 0;
    while i < profile.languages.len()
        invariant
            i <= profile.languages@.len(),
            total == saturating(language_total(profile.languages@.take(i as int))),
        decreases profile.languages@.len() - i,
    {
        proof {
            assert(profile.languages@.take(i + 1).drop_last() =~= profile.languages@.take(i as int));
            assert(profile.languages@.take(i + 1).last() == profile.languages@[i as int]);
            lemma_language_total_nonnegative(profile.languages@.take(i as int));
        }
        let b = profile.languages[i].bytes;
        total = if total > u64::MAX - b { u64::MAX } else { total + b };
        i = i + 1;
    }
    proof {
        assert(profile.languages@.take(i as int) =~= profile.languages@);
    }
    total
}

/// A language is shown when it makes up at least the minimum share of the
/// code and no technology badge already stands for it.
pub open spec fn language_shown(l: WorkspaceLanguage, total: u64, technologies: Seq<WorkspaceTechnology>) -> bool {
    &&& total > 0
    &&& saturating(l.bytes * 1000) >= saturating(total * MIN_LANGUAGE_PERMILLE)
    &&& !(exists|i: int| 0 <= i < technologies.len() && represented_by(l.name@, #[trigger] technologies[i]))
}

/// The shown languages among `langs`, in order.
pub open spec fn shown_languages(langs: Seq<WorkspaceLanguage>, total: u64, technologies: Seq<WorkspaceTechnology>) -> Seq<(Seq<char>, u64)>
    decreases langs.len(),
{
    if langs.len() == 0 {
        Seq::empty()
    } else {
        let rest = shown_languages(langs.drop_last(), total, technologies);
        if language_shown(langs.last(), total, technologies) {
            rest.push((langs.last().name@, langs.last().bytes))
        } else {
            rest
        }
    }
}

pub open spec fn first_at_most<T>(s: Seq<T>, n: int) -> Seq<T> {
    if s.len() > n {
        s.take(n)
    } else {
        s
    }
}

/// The badges a project row shows: its first technologies, and its first
/// languages that are shown, at most `MAX_BADGES` of each.
pub fn project_badges(profile: &WorkspaceProfile) -> (r: (Vec<WorkspaceTechnology>, Vec<WorkspaceLanguage>))
    ensures
        r.0@ == first_at_most(profile.technologies@, MAX_BADGES as int),
        r.1@.map_values(|l: WorkspaceLanguage| (l.name@, l.bytes)) == first_at_most(
            shown_languages(
                profile.languages@,
                saturating(language_total(profile.languages@)),
                first_at_most(profile.technologies@, MAX_BADGES as int),
            ),
            MAX_BADGES as int,
        ),
{
    let total = total_language_bytes(profile);
    let mut technologies: Vec<WorkspaceTechnology> = Vec::new();
    let mut t: usize = 0;
    while t < profile.technologies.len() && t < MAX_BADGES
        invariant
            t <= profile.technologies@.len(),
            t <= MAX_BADGES,
            technologies@ == profile.technologies@.take(t as int),
        decreases profile.technologies@.len() - t,
    {
        technologies.push(profile.technologies[t]);
        t = t + 1;
        proof {
            assert(profile.technologies@.take(t as int) =~= profile.technologies@.take(t - 1).push(profile.technologies@[t - 1]));
        }
    }
    proof {
        assert(technologies@ =~= first_at_most(profile.technologies@, MAX_BADGES as int));
    }
    let ghost techs = technologies@;
    let mut languages: Vec<WorkspaceLanguage> = Vec::new();
    let mut i: usize = 0;
    while i < profile.languages.len()
        invariant
            i <= profile.languages@.len(),
            techs == technologies@,
            languages@.map_values(|l: WorkspaceLanguage| (l.name@, l.bytes)) == first_at_most(
                shown_languages(profile.languages@.take(i as int), total, techs),
                MAX_BADGES as int,
            ),
        decreases profile.languages@.len() - i,
    {
        proof {
            assert(profile.languages@.take(i + 1).drop_last() =~= profile.languages@.take(i as int));
            assert(profile.languages@.take(i + 1).last() == profile.languages@[i as int]);
        }
        let l = &profile.languages[i];
        let share = if l.bytes > u64::MAX / 1000 { u64::MAX } else { l.bytes * 1000 };
        let floor = if total > u64::MAX / MIN_LANGUAGE_PERMILLE { u64::MAX } else { total * MIN_LANGUAGE_PERMILLE };
        proof {
            assert(share == saturating(l.bytes * 1000)) by (nonlinear_arith)
                requires
                    share == if l.bytes > u64::MAX / 1000 { u64::MAX } else { (l.bytes * 1000) as u64 },
            ;
            assert(floor == saturating(total * MIN_LANGUAGE_PERMILLE)) by (nonlinear_arith)
                requires
                    floor == if total > u64::MAX / 20 { u64::MAX } else { (total * 20) as u64 },
                    MIN_LANGUAGE_PERMILLE == 20,
            ;
        }
        let shown = total > 0 && share >= floor && !language_represented_by_technology(l.name.as_str(), technologies.as_slice());
        let ghost before = languages@.map_values(|l: WorkspaceLanguage| (l.name@, l.bytes));
        let ghost prior = shown_languages(profile.languages@.take(i as int), total, techs);
        if shown && languages.len() < MAX_BADGES {
            languages.push(WorkspaceLanguage { name: l.name.clone(), bytes: l.bytes });
            proof {
                assert(languages@.map_values(|l: WorkspaceLanguage| (l.name@, l.bytes)) =~= before.push((l.name@, l.bytes)));
            }
        }
        proof {
            let next = shown_languages(profile.languages@.take(i + 1), total, techs);
            if shown {
                assert(next == prior.push((l.name@, l.bytes)));
                if prior.len() >= MAX_BADGES {
                    assert(first_at_most(next, MAX_BADGES as int) =~= first_at_most(prior, MAX_BADGES as int));
                }
            }
        }
        i = i + 1;
    }
    proof {
        assert(profile.languages@.take(i as int) =~= profile.languages@);
    }
    (technologies, languages)
}

/// The screen widths at which the badge at `index` is hidden.
pub fn badge_visibility_class(index: usize) -> (r: &'static str)
    ensures
        r@ == if index <= 1 {
            ""@
        } else if index <= 3 {
            "max-[479px]:hidden"@
        } else if index <= 6 {
            "max-md:hidden"@
        } else {
            "max-lg:hidden"@
        },
{
    if index <= 1 {
        ""
    } else if index <= 3 {
        "max-[479px]:hidden"
    } else if index <= 6 {
        "max-md:hidden"
    } else {
        "max-lg:hidden"
    }
}

} // verus!
