//! Language identification from file paths.
use vstd::prelude::*;
use crate::text::{ascii_lower, chars_of, lower_seq, seq_ends_with, seq_eq, slice_to_vec, to_ascii_lowercase};

verus! {

/// Whether `s` spells the string literal `l`.
pub fn is_lit(s: &[char], l: &str) -> (r: bool)
    ensures
        r == (s@ == l@),
{
    let lc = chars_of(l);
    seq_eq(s, &lc)
}

/// Index of the last `c` in `s`, or `-1`.
pub open spec fn last_index(s: Seq<char>, c: char) -> int
    decreases s.len(),
{
    if s.len() == 0 {
        -1
    } else if s.last() == c {
        s.len() - 1
    } else {
        last_index(s.drop_last(), c)
    }
}

/// Index of the last `c` in `s`, or `s.len()` when there is none.
pub fn find_last(s: &[char], c: char) -> (r: usize)
    ensures
        r <= s@.len(),
        r < s@.len() ==> r == last_index(s@, c),
        r == s@.len() ==> last_index(s@, c) == -1,
{
    let mut i: usize = s.len();
    proof {
        assert(s@.take(s@.len() as int) =~= s@);
    }
    while i > 0
        invariant
            i <= s@.len(),
            last_index(s@, c) == last_index(s@.take(i as int), c),
        decreases i,
    {
        if s[i - 1] == c {
            return i - 1;
        }
        proof {
            assert(s@.take(i as int).drop_last() =~= s@.take(i - 1));
        }
        i = i - 1;
    }
    proof {
        assert(s@.take(0) =~= Seq::<char>::empty());
    }
    s.len()
}

/// The file name: the part of the path after its last `/`.
pub open spec fn file_name(path: Seq<char>) -> Seq<char> {
    path.skip(last_index(path, '/') + 1)
}

/// The extension: the part of a name after its last `.`, empty when there is none.
pub open spec fn extension_spec(name: Seq<char>) -> Seq<char> {
    if last_index(name, '.') < 0 {
        Seq::empty()
    } else {
        name.skip(last_index(name, '.') + 1)
    }
}

fn file_name_of(path: &[char]) -> (r: Vec<char>)
    ensures
        r@ == file_name(path@),
{
    let k = find_last(path, '/');
    if k == path.len() {
        let r = slice_to_vec(path, 0, path.len());
        proof {
            assert(r@ =~= path@.skip(0));
        }
        r
    } else {
        slice_to_vec(path, k + 1, path.len())
    }
}

fn extension(name: &[char]) -> (r: Vec<char>)
    ensures
        r@ == extension_spec(name@),
{
    let k = find_last(name, '.');
    if k == name.len() {
        Vec::new()
    } else {
        slice_to_vec(name, k + 1, name.len())
    }
}

/// Shell scripts recognised by name or extension.
pub open spec fn is_shell_name_spec(name: Seq<char>) -> bool {
    let ext = extension_spec(name);
    name == ".bash_aliases"@ || name == ".bash_login"@ || name == ".bash_logout"@ || name == ".bash_profile"@ || name == ".bashrc"@ || name == ".profile"@ || name == ".zprofile"@ || name == ".zshenv"@ || name == ".zshrc"@ || name == "pre-commit"@ || name == "pre-push"@ || name == "post-checkout"@ || name == "commit-msg"@ || ext == "sh"@ || ext == "bash"@ || ext == "zsh"@ || ext == "ksh"@
}

fn is_shell_name(name: &[char]) -> (r: bool)
    ensures
        r == is_shell_name_spec(name@),
{
    let ext = extension(name);
    if is_lit(name, ".bash_aliases") {
        return true;
    }
    if is_lit(name, ".bash_login") {
        return true;
    }
    if is_lit(name, ".bash_logout") {
        return true;
    }
    if is_lit(name, ".bash_profile") {
        return true;
    }
    if is_lit(name, ".bashrc") {
        return true;
    }
    if is_lit(name, ".profile") {
        return true;
    }
    if is_lit(name, ".zprofile") {
        return true;
    }
    if is_lit(name, ".zshenv") {
        return true;
    }
    if is_lit(name, ".zshrc") {
        return true;
    }
    if is_lit(name, "pre-commit") {
        return true;
    }
    if is_lit(name, "pre-push") {
        return true;
    }
    if is_lit(name, "post-checkout") {
        return true;
    }
    if is_lit(name, "commit-msg") {
        return true;
    }
    is_lit(&ext, "sh") || is_lit(&ext, "bash") || is_lit(&ext, "zsh") || is_lit(&ext, "ksh")
}

/// Language slug of a file name's extension, `nginx.conf` or `rust` by default.
pub open spec fn extension_slug(name: Seq<char>) -> Seq<char> {
    let ext = extension_spec(name);
    if ext == "rs"@ {
        "rust"@
        } else if ext == "js"@ || ext == "mjs"@ || ext == "cjs"@ || ext == "jsx"@ {
        "javascript"@
        } else if ext == "ts"@ || ext == "mts"@ || ext == "cts"@ {
        "typescript"@
        } else if ext == "tsx"@ {
        "tsx"@
        } else if ext == "html"@ || ext == "htm"@ {
        "html"@
        } else if ext == "css"@ {
        "css"@
        } else if ext == "scss"@ || ext == "sass"@ {
        "scss"@
        } else if ext == "json"@ || ext == "jsonc"@ {
        "json"@
        } else if ext == "md"@ || ext == "markdown"@ {
        "markdown"@
        } else if ext == "xml"@ || ext == "svg"@ {
        "xml"@
        } else if ext == "yaml"@ || ext == "yml"@ {
        "yaml"@
        } else if ext == "toml"@ {
        "toml"@
        } else if ext == "py"@ || ext == "pyw"@ {
        "python"@
        } else if ext == "php"@ {
        "php"@
        } else if ext == "rb"@ {
        "ruby"@
        } else if ext == "go"@ {
        "go"@
        } else if ext == "sql"@ {
        "sql"@
        } else if ext == "diff"@ || ext == "patch"@ {
        "diff"@
        } else if ext == "ps1"@ || ext == "psd1"@ || ext == "psm1"@ {
        "powershell"@
        } else if ext == "lua"@ {
        "lua"@
        } else if ext == "c"@ || ext == "h"@ {
        "c"@
        } else if ext == "cc"@ || ext == "cpp"@ || ext == "cxx"@ || ext == "hh"@ || ext == "hpp"@ || ext == "hxx"@ {
        "cpp"@
        } else if ext == "cs"@ {
        "c-sharp"@
        } else if ext == "java"@ {
        "java"@
        } else if ext == "kt"@ || ext == "kts"@ {
        "kotlin"@
        } else if ext == "dart"@ {
        "dart"@
        } else if ext == "ini"@ || ext == "properties"@ {
        "ini"@
    } else if name == "nginx.conf"@ {
        "nginx"@
    } else {
        "rust"@
    }
}

/// The language slug for a path: special names first, then shell scripts, then
/// the extension, compared without regard to ASCII case.
pub open spec fn language_slug_spec(path: Seq<char>) -> Seq<char> {
    let lower = lower_seq(path);
    let name = file_name(lower);
    if name == "dockerfile"@ || name == "containerfile"@ || (".dockerfile"@.len() <= lower.len()
        && lower.skip(lower.len() - ".dockerfile"@.len()) == ".dockerfile"@) {
        "dockerfile"@
    } else if is_shell_name_spec(name) {
        "bash"@
    } else {
        extension_slug(name)
    }
}

pub fn language_slug_for_path(path: &str) -> (r: &'static str)
    ensures
        r@ == language_slug_spec(path@),
{
    let p = chars_of(path);
    let lower = to_ascii_lowercase(&p);
    let name = file_name_of(&lower);
    let suffix = chars_of(".dockerfile");
    if is_lit(&name, "dockerfile") || is_lit(&name, "containerfile") || seq_ends_with(&lower, &suffix) {
        return "dockerfile";
    }
    if is_shell_name(&name) {
        return "bash";
    }
    let ext = extension(&name);
    if is_lit(&ext, "rs") {
        return "rust";
    }
    if is_lit(&ext, "js") || is_lit(&ext, "mjs") || is_lit(&ext, "cjs") || is_lit(&ext, "jsx") {
        return "javascript";
    }
    if is_lit(&ext, "ts") || is_lit(&ext, "mts") || is_lit(&ext, "cts") {
        return "typescript";
    }
    if is_lit(&ext, "tsx") {
        return "tsx";
    }
    if is_lit(&ext, "html") || is_lit(&ext, "htm") {
        return "html";
    }
    if is_lit(&ext, "css") {
        return "css";
    }
    if is_lit(&ext, "scss") || is_lit(&ext, "sass") {
        return "scss";
    }
    if is_lit(&ext, "json") || is_lit(&ext, "jsonc") {
        return "json";
    }
    if is_lit(&ext, "md") || is_lit(&ext, "markdown") {
        return "markdown";
    }
    if is_lit(&ext, "xml") || is_lit(&ext, "svg") {
        return "xml";
    }
    if is_lit(&ext, "yaml") || is_lit(&ext, "yml") {
        return "yaml";
    }
    if is_lit(&ext, "toml") {
        return "toml";
    }
    if is_lit(&ext, "py") || is_lit(&ext, "pyw") {
        return "python";
    }
    if is_lit(&ext, "php") {
        return "php";
    }
    if is_lit(&ext, "rb") {
        return "ruby";
    }
    if is_lit(&ext, "go") {
        return "go";
    }
    if is_lit(&ext, "sql") {
        return "sql";
    }
    if is_lit(&ext, "diff") || is_lit(&ext, "patch") {
        return "diff";
    }
    if is_lit(&ext, "ps1") || is_lit(&ext, "psd1") || is_lit(&ext, "psm1") {
        return "powershell";
    }
    if is_lit(&ext, "lua") {
        return "lua";
    }
    if is_lit(&ext, "c") || is_lit(&ext, "h") {
        return "c";
    }
    if is_lit(&ext, "cc") || is_lit(&ext, "cpp") || is_lit(&ext, "cxx") || is_lit(&ext, "hh") || is_lit(&ext, "hpp") || is_lit(&ext, "hxx") {
        return "cpp";
    }
    if is_lit(&ext, "cs") {
        return "c-sharp";
    }
    if is_lit(&ext, "java") {
        return "java";
    }
    if is_lit(&ext, "kt") || is_lit(&ext, "kts") {
        return "kotlin";
    }
    if is_lit(&ext, "dart") {
        return "dart";
    }
    if is_lit(&ext, "ini") || is_lit(&ext, "properties") {
        return "ini";
    }
    if is_lit(&name, "nginx.conf") {
        return "nginx";
    }
    "rust"
}

/// Display label of a language slug; slugs without a label are shown as is.
pub open spec fn language_label_spec(slug: Seq<char>) -> Seq<char> {
    if slug == "bash"@ {
        "Shell"@
        } else if slug == "c-sharp"@ {
        "C#"@
        } else if slug == "cpp"@ {
        "C++"@
        } else if slug == "dockerfile"@ {
        "Dockerfile"@
        } else if slug == "javascript"@ {
        "JavaScript"@
        } else if slug == "json"@ {
        "JSON"@
        } else if slug == "markdown"@ {
        "Markdown"@
        } else if slug == "powershell"@ {
        "PowerShell"@
        } else if slug == "python"@ {
        "Python"@
        } else if slug == "rust"@ {
        "Rust"@
        } else if slug == "sql"@ {
        "SQL"@
        } else if slug == "toml"@ {
        "TOML"@
        } else if slug == "tsx"@ {
        "TSX"@
        } else if slug == "typescript"@ {
        "TypeScript"@
        } else if slug == "xml"@ {
        "XML"@
        } else if slug == "yaml"@ {
        "YAML"@
    } else {
        slug
    }
}

pub fn language_label_for_path(path: &str) -> (r: &'static str)
    ensures
        r@ == language_label_spec(language_slug_spec(path@)),
{
    let slug = language_slug_for_path(path);
    let s = chars_of(slug);
    if is_lit(&s, "bash") {
        return "Shell";
    }
    if is_lit(&s, "c-sharp") {
        return "C#";
    }
    if is_lit(&s, "cpp") {
        return "C++";
    }
    if is_lit(&s, "dockerfile") {
        return "Dockerfile";
    }
    if is_lit(&s, "javascript") {
        return "JavaScript";
    }
    if is_lit(&s, "json") {
        return "JSON";
    }
    if is_lit(&s, "markdown") {
        return "Markdown";
    }
    if is_lit(&s, "powershell") {
        return "PowerShell";
    }
    if is_lit(&s, "python") {
        return "Python";
    }
    if is_lit(&s, "rust") {
        return "Rust";
    }
    if is_lit(&s, "sql") {
        return "SQL";
    }
    if is_lit(&s, "toml") {
        return "TOML";
    }
    if is_lit(&s, "tsx") {
        return "TSX";
    }
    if is_lit(&s, "typescript") {
        return "TypeScript";
    }
    if is_lit(&s, "xml") {
        return "XML";
    }
    if is_lit(&s, "yaml") {
        return "YAML";
    }
    slug
}

proof fn lemma_last_index_past(x: Seq<char>, y: Seq<char>, c: char)
    requires
        !y.contains(c),
    ensures
        last_index(x + y, c) == last_index(x, c),
    decreases y.len(),
{
    if y.len() > 0 {
        assert((x + y).drop_last() =~= x + y.drop_last());
        assert((x + y).last() == y[y.len() - 1]);
        assert forall|i: int| 0 <= i < y.drop_last().len() implies y.drop_last()[i] != c by {
            assert(y.drop_last()[i] == y[i]);
        }
        lemma_last_index_past(x, y.drop_last(), c);
    } else {
        assert(x + y =~= x);
    }
}

/// The language of a path does not depend on the ASCII case of its letters.
pub proof fn language_ignores_letter_case(a: Seq<char>, b: Seq<char>)
    requires
        lower_seq(a) == lower_seq(b),
    ensures
        language_slug_spec(a) == language_slug_spec(b),
{
}

/// Whether a lowered path ends in `.dockerfile`.
spec fn docker_suffix(lower: Seq<char>) -> bool {
    ".dockerfile"@.len() <= lower.len() && lower.skip(lower.len() - ".dockerfile"@.len()) == ".dockerfile"@
}

proof fn lemma_lower_joined(dir: Seq<char>, name: Seq<char>)
    ensures
        lower_seq(dir + seq!['/'] + name) == lower_seq(dir).push('/') + lower_seq(name),
{
    let path = dir + seq!['/'] + name;
    assert forall|i: int| 0 <= i < path.len() implies #[trigger] lower_seq(path)[i] == (lower_seq(dir).push('/')
        + lower_seq(name))[i] by {
        if i < dir.len() {
            assert(path[i] == dir[i]);
        } else if i == dir.len() {
            assert(path[i] == '/');
        } else {
            assert(path[i] == name[i - dir.len() - 1]);
        }
    }
    assert(lower_seq(path) =~= lower_seq(dir).push('/') + lower_seq(name));
}

proof fn lemma_lower_keeps_slashes_out(name: Seq<char>)
    requires
        !name.contains('/'),
    ensures
        !lower_seq(name).contains('/'),
{
    assert forall|i: int| 0 <= i < lower_seq(name).len() implies lower_seq(name)[i] != '/' by {
        assert(name[i] != '/');
    }
}

proof fn lemma_name_after_directories(dir: Seq<char>, name: Seq<char>)
    requires
        !name.contains('/'),
    ensures
        file_name(lower_seq(dir + seq!['/'] + name)) == file_name(lower_seq(name)),
        docker_suffix(lower_seq(dir + seq!['/'] + name)) == docker_suffix(lower_seq(name)),
{
    let head = lower_seq(dir).push('/');
    let low = lower_seq(name);
    lemma_lower_joined(dir, name);
    lemma_lower_keeps_slashes_out(name);
    lemma_last_index_past(head, low, '/');
    lemma_last_index_past(Seq::empty(), low, '/');
    assert(Seq::<char>::empty() + low =~= low);
    assert(last_index(head, '/') == head.len() - 1);
    assert(file_name(head + low) =~= low);
    assert(file_name(low) =~= low);
    let whole = head + low;
    let tail = ".dockerfile"@;
    assert(tail.len() == 11) by {
        reveal_strlit(".dockerfile");
    }
    if low.len() >= tail.len() {
        assert(whole.skip(whole.len() - tail.len()) =~= low.skip(low.len() - tail.len()));
    } else if tail.len() <= whole.len() && whole.skip(whole.len() - tail.len()) == tail {
        let k = tail.len() - low.len() - 1;
        assert(whole.skip(whole.len() - tail.len())[k] == whole[head.len() - 1]);
        assert(tail[k] != '/') by {
            reveal_strlit(".dockerfile");
        }
    }
}

/// The ASCII upper-case form of a character.
pub open spec fn ascii_upper(c: char) -> char {
    if 'a' <= c <= 'z' {
        ((c as u32) - 32) as char
    } else {
        c
    }
}

/// Upper-casing the ASCII letters of a path (`to_ascii_uppercase`) does not
/// change its language.
pub proof fn language_ignores_upper_casing(path: Seq<char>)
    ensures
        language_slug_spec(path.map_values(|c: char| ascii_upper(c))) == language_slug_spec(path),
{
    let upper = path.map_values(|c: char| ascii_upper(c));
    assert forall|i: int| 0 <= i < path.len() implies #[trigger] lower_seq(upper)[i] == lower_seq(path)[i] by {
        let c = path[i];
        assert(upper[i] == ascii_upper(c));
    }
    assert(lower_seq(upper) =~= lower_seq(path));
    language_ignores_letter_case(upper, path);
}

/// The language of a path depends on its file name alone, not on the
/// directories before it.
pub proof fn language_ignores_directories(dir: Seq<char>, name: Seq<char>)
    requires
        !name.contains('/'),
    ensures
        language_slug_spec(dir + seq!['/'] + name) == language_slug_spec(name),
{
    lemma_name_after_directories(dir, name);
}

/// A file name made of `stem`, a dot and `ext`.
pub open spec fn dotted(stem: Seq<char>, ext: Seq<char>) -> Seq<char> {
    stem + seq!['.'] + ext
}

#[verifier::spinoff_prover]
proof fn lemma_not_a_container_file(head: Seq<char>, ext: Seq<char>)
    requires
        head.len() > 0,
        head.last() == '.',
        !ext.contains('.'),
        ext != "dockerfile"@,
    ensures
        head + ext != "dockerfile"@,
        head + ext != "containerfile"@,
        !docker_suffix(head + ext),
{
    let low = head + ext;
    reveal_strlit("dockerfile");
    reveal_strlit("containerfile");
    reveal_strlit(".dockerfile");
    let dot = head.len() - 1;
    assert(low[dot] == '.');
    let d = "dockerfile"@;
    let c = "containerfile"@;
    assert(d =~= seq!['d', 'o', 'c', 'k', 'e', 'r', 'f', 'i', 'l', 'e']);
    assert(c =~= seq!['c', 'o', 'n', 't', 'a', 'i', 'n', 'e', 'r', 'f', 'i', 'l', 'e']);
    assert forall|i: int| 0 <= i < d.len() implies d[i] != '.' by {
    }
    assert forall|i: int| 0 <= i < c.len() implies c[i] != '.' by {
    }
    assert(low != d) by {
        if low == d {
            assert(d[dot] == '.');
        }
    }
    assert(low != c) by {
        if low == c {
            assert(c[dot] == '.');
        }
    }
    let tail = ".dockerfile"@;
    assert(!docker_suffix(low)) by {
        if tail.len() <= low.len() && low.skip(low.len() - tail.len()) == tail {
            let suffix = low.skip(low.len() - tail.len());
            if ext.len() >= tail.len() {
                assert(ext[ext.len() - tail.len()] == low[low.len() - tail.len()]);
                assert(suffix[0] == low[low.len() - tail.len()]);
                assert(ext.contains('.'));
            } else if ext.len() == tail.len() - 1 {
                assert forall|i: int| 0 <= i < ext.len() implies ext[i] == suffix.drop_first()[i] by {
                    assert(low[head.len() + i] == ext[i]);
                }
                assert(ext =~= suffix.drop_first());
                assert(suffix.drop_first() =~= "dockerfile"@);
            } else {
                let k = tail.len() - ext.len() - 1;
                assert(suffix[k] == low[dot]);
                assert(tail[k] != '.');
            }
        }
    }
}

#[verifier::spinoff_prover]
proof fn lemma_named_by_extension(stem: Seq<char>, ext: Seq<char>)
    requires
        !stem.contains('/'),
        !ext.contains('/'),
        !ext.contains('.'),
        lower_seq(ext) == ext,
        ext != "dockerfile"@,
    ensures
        ({
            let low = lower_seq(dotted(stem, ext));
            &&& low == lower_seq(stem) + seq!['.'] + ext
            &&& extension_spec(low) == ext
            &&& language_slug_spec(dotted(stem, ext)) == if is_shell_name_spec(low) {
                "bash"@
            } else {
                extension_slug(low)
            }
        }),
{
    let name = dotted(stem, ext);
    let head = lower_seq(stem) + seq!['.'];
    let low = lower_seq(name);
    assert forall|i: int| 0 <= i < name.len() implies #[trigger] low[i] == (head + ext)[i] by {
        if i < stem.len() {
            assert(name[i] == stem[i]);
        } else if i == stem.len() {
            assert(name[i] == '.');
        } else {
            assert(name[i] == ext[i - stem.len() - 1]);
            assert(lower_seq(ext)[i - stem.len() - 1] == ascii_lower(ext[i - stem.len() - 1]));
        }
    }
    assert(low =~= head + ext);
    lemma_lower_keeps_slashes_out(stem);
    assert(!head.contains('/')) by {
        assert forall|i: int| 0 <= i < head.len() implies head[i] != '/' by {
            if i < stem.len() {
                assert(head[i] == lower_seq(stem)[i]);
            }
        }
    }
    assert(!low.contains('/')) by {
        assert forall|i: int| 0 <= i < low.len() implies low[i] != '/' by {
            if i < head.len() {
                assert(low[i] == head[i]);
            } else {
                assert(low[i] == ext[i - head.len()]);
            }
        }
    }
    lemma_last_index_past(Seq::empty(), low, '/');
    assert(Seq::<char>::empty() + low =~= low);
    assert(file_name(low) =~= low);
    lemma_last_index_past(head, ext, '.');
    assert(last_index(head, '.') == head.len() - 1);
    assert(extension_spec(low) =~= ext);
    lemma_not_a_container_file(head, ext);
    assert(language_slug_spec(name) == if is_shell_name_spec(low) {
        "bash"@
    } else {
        extension_slug(low)
    });
}

proof fn lemma_not_special(stem: Seq<char>, ext: Seq<char>)
    requires
        !stem.contains('/'),
        !ext.contains('/'),
        !ext.contains('.'),
        lower_seq(ext) == ext,
        ext != "dockerfile"@,
        ext.len() > 0,
    ensures
        ({
            let low = lower_seq(dotted(stem, ext));
            &&& low[low.len() - ext.len() - 1] == '.'
            &&& forall|j: int| 0 <= j < ext.len() ==> low[low.len() - ext.len() + j] == #[trigger] ext[j]
        }),
{
    lemma_named_by_extension(stem, ext);
}

proof fn lemma_extension_names()
    ensures
        "rs"@ == seq!['r', 's'],
        "rust"@ == seq!['r', 'u', 's', 't'],
        "js"@ == seq!['j', 's'],
        "mjs"@ == seq!['m', 'j', 's'],
        "cjs"@ == seq!['c', 'j', 's'],
        "jsx"@ == seq!['j', 's', 'x'],
        "javascript"@ == seq!['j', 'a', 'v', 'a', 's', 'c', 'r', 'i', 'p', 't'],
        "ts"@ == seq!['t', 's'],
        "mts"@ == seq!['m', 't', 's'],
        "cts"@ == seq!['c', 't', 's'],
        "typescript"@ == seq!['t', 'y', 'p', 'e', 's', 'c', 'r', 'i', 'p', 't'],
        "tsx"@ == seq!['t', 's', 'x'],
        "html"@ == seq!['h', 't', 'm', 'l'],
        "htm"@ == seq!['h', 't', 'm'],
        "css"@ == seq!['c', 's', 's'],
        "scss"@ == seq!['s', 'c', 's', 's'],
        "sass"@ == seq!['s', 'a', 's', 's'],
        "json"@ == seq!['j', 's', 'o', 'n'],
        "jsonc"@ == seq!['j', 's', 'o', 'n', 'c'],
        "md"@ == seq!['m', 'd'],
        "markdown"@ == seq!['m', 'a', 'r', 'k', 'd', 'o', 'w', 'n'],
        "xml"@ == seq!['x', 'm', 'l'],
        "svg"@ == seq!['s', 'v', 'g'],
        "yaml"@ == seq!['y', 'a', 'm', 'l'],
        "yml"@ == seq!['y', 'm', 'l'],
        "toml"@ == seq!['t', 'o', 'm', 'l'],
        "py"@ == seq!['p', 'y'],
        "pyw"@ == seq!['p', 'y', 'w'],
        "python"@ == seq!['p', 'y', 't', 'h', 'o', 'n'],
        "php"@ == seq!['p', 'h', 'p'],
        "rb"@ == seq!['r', 'b'],
        "ruby"@ == seq!['r', 'u', 'b', 'y'],
        "go"@ == seq!['g', 'o'],
        "sql"@ == seq!['s', 'q', 'l'],
        "diff"@ == seq!['d', 'i', 'f', 'f'],
        "patch"@ == seq!['p', 'a', 't', 'c', 'h'],
        "ps1"@ == seq!['p', 's', '1'],
        "psd1"@ == seq!['p', 's', 'd', '1'],
        "psm1"@ == seq!['p', 's', 'm', '1'],
        "powershell"@ == seq!['p', 'o', 'w', 'e', 'r', 's', 'h', 'e', 'l', 'l'],
        "lua"@ == seq!['l', 'u', 'a'],
        "c"@ == seq!['c'],
        "h"@ == seq!['h'],
        "cc"@ == seq!['c', 'c'],
        "cpp"@ == seq!['c', 'p', 'p'],
        "cxx"@ == seq!['c', 'x', 'x'],
        "hh"@ == seq!['h', 'h'],
        "hpp"@ == seq!['h', 'p', 'p'],
        "hxx"@ == seq!['h', 'x', 'x'],
        "cs"@ == seq!['c', 's'],
        "c-sharp"@ == seq!['c', '-', 's', 'h', 'a', 'r', 'p'],
        "java"@ == seq!['j', 'a', 'v', 'a'],
        "kt"@ == seq!['k', 't'],
        "kts"@ == seq!['k', 't', 's'],
        "kotlin"@ == seq!['k', 'o', 't', 'l', 'i', 'n'],
        "dart"@ == seq!['d', 'a', 'r', 't'],
        "ini"@ == seq!['i', 'n', 'i'],
        "properties"@ == seq!['p', 'r', 'o', 'p', 'e', 'r', 't', 'i', 'e', 's'],
        "nginx.conf"@ == seq!['n', 'g', 'i', 'n', 'x', '.', 'c', 'o', 'n', 'f'],
        "nginx"@ == seq!['n', 'g', 'i', 'n', 'x'],
{
    reveal_strlit("rs");
    reveal_strlit("rust");
    reveal_strlit("js");
    reveal_strlit("mjs");
    reveal_strlit("cjs");
    reveal_strlit("jsx");
    reveal_strlit("javascript");
    reveal_strlit("ts");
    reveal_strlit("mts");
    reveal_strlit("cts");
    reveal_strlit("typescript");
    reveal_strlit("tsx");
    reveal_strlit("html");
    reveal_strlit("htm");
    reveal_strlit("css");
    reveal_strlit("scss");
    reveal_strlit("sass");
    reveal_strlit("json");
    reveal_strlit("jsonc");
    reveal_strlit("md");
    reveal_strlit("markdown");
    reveal_strlit("xml");
    reveal_strlit("svg");
    reveal_strlit("yaml");
    reveal_strlit("yml");
    reveal_strlit("toml");
    reveal_strlit("py");
    reveal_strlit("pyw");
    reveal_strlit("python");
    reveal_strlit("php");
    reveal_strlit("rb");
    reveal_strlit("ruby");
    reveal_strlit("go");
    reveal_strlit("sql");
    reveal_strlit("diff");
    reveal_strlit("patch");
    reveal_strlit("ps1");
    reveal_strlit("psd1");
    reveal_strlit("psm1");
    reveal_strlit("powershell");
    reveal_strlit("lua");
    reveal_strlit("c");
    reveal_strlit("h");
    reveal_strlit("cc");
    reveal_strlit("cpp");
    reveal_strlit("cxx");
    reveal_strlit("hh");
    reveal_strlit("hpp");
    reveal_strlit("hxx");
    reveal_strlit("cs");
    reveal_strlit("c-sharp");
    reveal_strlit("java");
    reveal_strlit("kt");
    reveal_strlit("kts");
    reveal_strlit("kotlin");
    reveal_strlit("dart");
    reveal_strlit("ini");
    reveal_strlit("properties");
    reveal_strlit("nginx.conf");
    reveal_strlit("nginx");
}

proof fn lemma_shell_names()
    ensures
        ".bash_aliases"@ == seq!['.', 'b', 'a', 's', 'h', '_', 'a', 'l', 'i', 'a', 's', 'e', 's'],
        ".bash_login"@ == seq!['.', 'b', 'a', 's', 'h', '_', 'l', 'o', 'g', 'i', 'n'],
        ".bash_logout"@ == seq!['.', 'b', 'a', 's', 'h', '_', 'l', 'o', 'g', 'o', 'u', 't'],
        ".bash_profile"@ == seq!['.', 'b', 'a', 's', 'h', '_', 'p', 'r', 'o', 'f', 'i', 'l', 'e'],
        ".bashrc"@ == seq!['.', 'b', 'a', 's', 'h', 'r', 'c'],
        ".profile"@ == seq!['.', 'p', 'r', 'o', 'f', 'i', 'l', 'e'],
        ".zprofile"@ == seq!['.', 'z', 'p', 'r', 'o', 'f', 'i', 'l', 'e'],
        ".zshenv"@ == seq!['.', 'z', 's', 'h', 'e', 'n', 'v'],
        ".zshrc"@ == seq!['.', 'z', 's', 'h', 'r', 'c'],
        "pre-commit"@ == seq!['p', 'r', 'e', '-', 'c', 'o', 'm', 'm', 'i', 't'],
        "pre-push"@ == seq!['p', 'r', 'e', '-', 'p', 'u', 's', 'h'],
        "post-checkout"@ == seq!['p', 'o', 's', 't', '-', 'c', 'h', 'e', 'c', 'k', 'o', 'u', 't'],
        "commit-msg"@ == seq!['c', 'o', 'm', 'm', 'i', 't', '-', 'm', 's', 'g'],
        "sh"@ == seq!['s', 'h'],
        "bash"@ == seq!['b', 'a', 's', 'h'],
        "zsh"@ == seq!['z', 's', 'h'],
        "ksh"@ == seq!['k', 's', 'h'],
        "dockerfile"@ == seq!['d', 'o', 'c', 'k', 'e', 'r', 'f', 'i', 'l', 'e'],
{
    reveal_strlit(".bash_aliases");
    reveal_strlit(".bash_login");
    reveal_strlit(".bash_logout");
    reveal_strlit(".bash_profile");
    reveal_strlit(".bashrc");
    reveal_strlit(".profile");
    reveal_strlit(".zprofile");
    reveal_strlit(".zshenv");
    reveal_strlit(".zshrc");
    reveal_strlit("pre-commit");
    reveal_strlit("pre-push");
    reveal_strlit("post-checkout");
    reveal_strlit("commit-msg");
    reveal_strlit("sh");
    reveal_strlit("bash");
    reveal_strlit("zsh");
    reveal_strlit("ksh");
    reveal_strlit("dockerfile");
}

/// The languages the file extensions name, as `(extension, slug)` pairs.
pub open spec fn extension_languages() -> Seq<(Seq<char>, Seq<char>)> {
    seq![
        ("rs"@, "rust"@),
        ("js"@, "javascript"@),
        ("mjs"@, "javascript"@),
        ("cjs"@, "javascript"@),
        ("jsx"@, "javascript"@),
        ("ts"@, "typescript"@),
        ("mts"@, "typescript"@),
        ("cts"@, "typescript"@),
        ("tsx"@, "tsx"@),
        ("html"@, "html"@),
        ("htm"@, "html"@),
        ("css"@, "css"@),
        ("scss"@, "scss"@),
        ("sass"@, "scss"@),
        ("json"@, "json"@),
        ("jsonc"@, "json"@),
        ("md"@, "markdown"@),
        ("markdown"@, "markdown"@),
        ("xml"@, "xml"@),
        ("svg"@, "xml"@),
        ("yaml"@, "yaml"@),
        ("yml"@, "yaml"@),
        ("toml"@, "toml"@),
        ("py"@, "python"@),
        ("pyw"@, "python"@),
        ("php"@, "php"@),
        ("rb"@, "ruby"@),
        ("go"@, "go"@),
        ("sql"@, "sql"@),
        ("diff"@, "diff"@),
        ("patch"@, "diff"@),
        ("ps1"@, "powershell"@),
        ("psd1"@, "powershell"@),
        ("psm1"@, "powershell"@),
        ("lua"@, "lua"@),
        ("c"@, "c"@),
        ("h"@, "c"@),
        ("cc"@, "cpp"@),
        ("cpp"@, "cpp"@),
        ("cxx"@, "cpp"@),
        ("hh"@, "cpp"@),
        ("hpp"@, "cpp"@),
        ("hxx"@, "cpp"@),
        ("cs"@, "c-sharp"@),
        ("java"@, "java"@),
        ("kt"@, "kotlin"@),
        ("kts"@, "kotlin"@),
        ("dart"@, "dart"@),
        ("ini"@, "ini"@),
        ("properties"@, "ini"@),
        ("sh"@, "bash"@),
        ("bash"@, "bash"@),
        ("zsh"@, "bash"@),
        ("ksh"@, "bash"@),
    ]
}

#[verifier::spinoff_prover]
proof fn lemma_extension_0(stem: Seq<char>)
    requires
        !stem.contains('/'),
    ensures
        language_slug_spec(dotted(stem, "rs"@)) == "rust"@,
{
    let ext = "rs"@;
    lemma_shell_names();
    lemma_extension_names();
    reveal_strlit("rs");
    reveal_strlit("rust");
    assert(lower_seq(ext) =~= ext);
    lemma_named_by_extension(stem, ext);
    lemma_not_special(stem, ext);
    let low = lower_seq(dotted(stem, ext));
    assert(low[low.len() - 3] == '.');
    assert(low[low.len() - 2] == 'r');
    assert(low[low.len() - 1] == 's');
    assert(!is_shell_name_spec(low));
}

#[verifier::spinoff_prover]
proof fn lemma_extension_1(stem: Seq<char>)
    requires
        !stem.contains('/'),
    ensures
        language_slug_spec(dotted(stem, "js"@)) == "javascript"@,
{
    let ext = "js"@;
    lemma_shell_names();
    lemma_extension_names();
    reveal_strlit("js");
    reveal_strlit("javascript");
    assert(lower_seq(ext) =~= ext);
    lemma_named_by_extension(stem, ext);
    lemma_not_special(stem, ext);
    let low = lower_seq(dotted(stem, ext));
    assert(low[low.len() - 3] == '.');
    assert(low[low.len() - 2] == 'j');
    assert(low[low.len() - 1] == 's');
    assert(!is_shell_name_spec(low));
}

#[verifier::spinoff_prover]
proof fn lemma_extension_2(stem: Seq<char>)
    requires
        !stem.contains('/'),
    ensures
        language_slug_spec(dotted(stem, "mjs"@)) == "javascript"@,
{
    let ext = "mjs"@;
    lemma_shell_names();
    lemma_extension_names();
    reveal_strlit("mjs");
    reveal_strlit("javascript");
    assert(lower_seq(ext) =~= ext);
    lemma_named_by_extension(stem, ext);
    lemma_not_special(stem, ext);
    let low = lower_seq(dotted(stem, ext));
    assert(low[low.len() - 4] == '.');
    assert(low[low.len() - 3] == 'm');
    assert(low[low.len() - 2] == 'j');
    assert(low[low.len() - 1] == 's');
    assert(!is_shell_name_spec(low));
}

#[verifier::spinoff_prover]
proof fn lemma_extension_3(stem: Seq<char>)
    requires
        !stem.contains('/'),
    ensures
        language_slug_spec(dotted(stem, "cjs"@)) == "javascript"@,
{
    let ext = "cjs"@;
    lemma_shell_names();
    lemma_extension_names();
    reveal_strlit("cjs");
    reveal_strlit("javascript");
    assert(lower_seq(ext) =~= ext);
    lemma_named_by_extension(stem, ext);
    lemma_not_special(stem, ext);
    let low = lower_seq(dotted(stem, ext));
    assert(low[low.len() - 4] == '.');
    assert(low[low.len() - 3] == 'c');
    assert(low[low.len() - 2] == 'j');
    assert(low[low.len() - 1] == 's');
    assert(!is_shell_name_spec(low));
}

#[verifier::spinoff_prover]
proof fn lemma_extension_4(stem: Seq<char>)
    requires
        !stem.contains('/'),
    ensures
        language_slug_spec(dotted(stem, "jsx"@)) == "javascript"@,
{
    let ext = "jsx"@;
    lemma_shell_names();
    lemma_extension_names();
    reveal_strlit("jsx");
    reveal_strlit("javascript");
    assert(lower_seq(ext) =~= ext);
    lemma_named_by_extension(stem, ext);
    lemma_not_special(stem, ext);
    let low = lower_seq(dotted(stem, ext));
    assert(low[low.len() - 4] == '.');
    assert(low[low.len() - 3] == 'j');
    assert(low[low.len() - 2] == 's');
    assert(low[low.len() - 1] == 'x');
    assert(!is_shell_name_spec(low));
}

#[verifier::spinoff_prover]
proof fn lemma_extension_5(stem: Seq<char>)
    requires
        !stem.contains('/'),
    ensures
        language_slug_spec(dotted(stem, "ts"@)) == "typescript"@,
{
    let ext = "ts"@;
    lemma_shell_names();
    lemma_extension_names();
    reveal_strlit("ts");
    reveal_strlit("typescript");
    assert(lower_seq(ext) =~= ext);
    lemma_named_by_extension(stem, ext);
    lemma_not_special(stem, ext);
    let low = lower_seq(dotted(stem, ext));
    assert(low[low.len() - 3] == '.');
    assert(low[low.len() - 2] == 't');
    assert(low[low.len() - 1] == 's');
    assert(!is_shell_name_spec(low));
}

#[verifier::spinoff_prover]
proof fn lemma_extension_6(stem: Seq<char>)
    requires
        !stem.contains('/'),
    ensures
        language_slug_spec(dotted(stem, "mts"@)) == "typescript"@,
{
    let ext = "mts"@;
    lemma_shell_names();
    lemma_extension_names();
    reveal_strlit("mts");
    reveal_strlit("typescript");
    assert(lower_seq(ext) =~= ext);
    lemma_named_by_extension(stem, ext);
    lemma_not_special(stem, ext);
    let low = lower_seq(dotted(stem, ext));
    assert(low[low.len() - 4] == '.');
    assert(low[low.len() - 3] == 'm');
    assert(low[low.len() - 2] == 't');
    assert(low[low.len() - 1] == 's');
    assert(!is_shell_name_spec(low));
}

#[verifier::spinoff_prover]
proof fn lemma_extension_7(stem: Seq<char>)
    requires
        !stem.contains('/'),
    ensures
        language_slug_spec(dotted(stem, "cts"@)) == "typescript"@,
{
    let ext = "cts"@;
    lemma_shell_names();
    lemma_extension_names();
    reveal_strlit("cts");
    reveal_strlit("typescript");
    assert(lower_seq(ext) =~= ext);
    lemma_named_by_extension(stem, ext);
    lemma_not_special(stem, ext);
    let low = lower_seq(dotted(stem, ext));
    assert(low[low.len() - 4] == '.');
    assert(low[low.len() - 3] == 'c');
    assert(low[low.len() - 2] == 't');
    assert(low[low.len() - 1] == 's');
    assert(!is_shell_name_spec(low));
}

#[verifier::spinoff_prover]
proof fn lemma_extension_8(stem: Seq<char>)
    requires
        !stem.contains('/'),
    ensures
        language_slug_spec(dotted(stem, "tsx"@)) == "tsx"@,
{
    let ext = "tsx"@;
    lemma_shell_names();
    lemma_extension_names();
    reveal_strlit("tsx");
    reveal_strlit("tsx");
    assert(lower_seq(ext) =~= ext);
    lemma_named_by_extension(stem, ext);
    lemma_not_special(stem, ext);
    let low = lower_seq(dotted(stem, ext));
    assert(low[low.len() - 4] == '.');
    assert(low[low.len() - 3] == 't');
    assert(low[low.len() - 2] == 's');
    assert(low[low.len() - 1] == 'x');
    assert(!is_shell_name_spec(low));
}

#[verifier::spinoff_prover]
proof fn lemma_extension_9(stem: Seq<char>)
    requires
        !stem.contains('/'),
    ensures
        language_slug_spec(dotted(stem, "html"@)) == "html"@,
{
    let ext = "html"@;
    lemma_shell_names();
    lemma_extension_names();
    reveal_strlit("html");
    reveal_strlit("html");
    assert(lower_seq(ext) =~= ext);
    lemma_named_by_extension(stem, ext);
    lemma_not_special(stem, ext);
    let low = lower_seq(dotted(stem, ext));
    assert(low[low.len() - 5] == '.');
    assert(low[low.len() - 4] == 'h');
    assert(low[low.len() - 3] == 't');
    assert(low[low.len() - 2] == 'm');
    assert(low[low.len() - 1] == 'l');
    assert(!is_shell_name_spec(low));
}

#[verifier::spinoff_prover]
proof fn lemma_extension_10(stem: Seq<char>)
    requires
        !stem.contains('/'),
    ensures
        language_slug_spec(dotted(stem, "htm"@)) == "html"@,
{
    let ext = "htm"@;
    lemma_shell_names();
    lemma_extension_names();
    reveal_strlit("htm");
    reveal_strlit("html");
    assert(lower_seq(ext) =~= ext);
    lemma_named_by_extension(stem, ext);
    lemma_not_special(stem, ext);
    let low = lower_seq(dotted(stem, ext));
    assert(low[low.len() - 4] == '.');
    assert(low[low.len() - 3] == 'h');
    assert(low[low.len() - 2] == 't');
    assert(low[low.len() - 1] == 'm');
    assert(!is_shell_name_spec(low));
}

#[verifier::spinoff_prover]
proof fn lemma_extension_11(stem: Seq<char>)
    requires
        !stem.contains('/'),
    ensures
        language_slug_spec(dotted(stem, "css"@)) == "css"@,
{
    let ext = "css"@;
    lemma_shell_names();
    lemma_extension_names();
    reveal_strlit("css");
    reveal_strlit("css");
    assert(lower_seq(ext) =~= ext);
    lemma_named_by_extension(stem, ext);
    lemma_not_special(stem, ext);
    let low = lower_seq(dotted(stem, ext));
    assert(low[low.len() - 4] == '.');
    assert(low[low.len() - 3] == 'c');
    assert(low[low.len() - 2] == 's');
    assert(low[low.len() - 1] == 's');
    assert(!is_shell_name_spec(low));
}

#[verifier::spinoff_prover]
proof fn lemma_extension_12(stem: Seq<char>)
    requires
        !stem.contains('/'),
    ensures
        language_slug_spec(dotted(stem, "scss"@)) == "scss"@,
{
    let ext = "scss"@;
    lemma_shell_names();
    lemma_extension_names();
    reveal_strlit("scss");
    reveal_strlit("scss");
    assert(lower_seq(ext) =~= ext);
    lemma_named_by_extension(stem, ext);
    lemma_not_special(stem, ext);
    let low = lower_seq(dotted(stem, ext));
    assert(low[low.len() - 5] == '.');
    assert(low[low.len() - 4] == 's');
    assert(low[low.len() - 3] == 'c');
    assert(low[low.len() - 2] == 's');
    assert(low[low.len() - 1] == 's');
    assert(!is_shell_name_spec(low));
}

#[verifier::spinoff_prover]
proof fn lemma_extension_13(stem: Seq<char>)
    requires
        !stem.contains('/'),
    ensures
        language_slug_spec(dotted(stem, "sass"@)) == "scss"@,
{
    let ext = "sass"@;
    lemma_shell_names();
    lemma_extension_names();
    reveal_strlit("sass");
    reveal_strlit("scss");
    assert(lower_seq(ext) =~= ext);
    lemma_named_by_extension(stem, ext);
    lemma_not_special(stem, ext);
    let low = lower_seq(dotted(stem, ext));
    assert(low[low.len() - 5] == '.');
    assert(low[low.len() - 4] == 's');
    assert(low[low.len() - 3] == 'a');
    assert(low[low.len() - 2] == 's');
    assert(low[low.len() - 1] == 's');
    assert(!is_shell_name_spec(low));
}

#[verifier::spinoff_prover]
proof fn lemma_extension_14(stem: Seq<char>)
    requires
        !stem.contains('/'),
    ensures
        language_slug_spec(dotted(stem, "json"@)) == "json"@,
{
    let ext = "json"@;
    lemma_shell_names();
    lemma_extension_names();
    reveal_strlit("json");
    reveal_strlit("json");
    assert(lower_seq(ext) =~= ext);
    lemma_named_by_extension(stem, ext);
    lemma_not_special(stem, ext);
    let low = lower_seq(dotted(stem, ext));
    assert(low[low.len() - 5] == '.');
    assert(low[low.len() - 4] == 'j');
    assert(low[low.len() - 3] == 's');
    assert(low[low.len() - 2] == 'o');
    assert(low[low.len() - 1] == 'n');
    assert(!is_shell_name_spec(low));
}

#[verifier::spinoff_prover]
proof fn lemma_extension_15(stem: Seq<char>)
    requires
        !stem.contains('/'),
    ensures
        language_slug_spec(dotted(stem, "jsonc"@)) == "json"@,
{
    let ext = "jsonc"@;
    lemma_shell_names();
    lemma_extension_names();
    reveal_strlit("jsonc");
    reveal_strlit("json");
    assert(lower_seq(ext) =~= ext);
    lemma_named_by_extension(stem, ext);
    lemma_not_special(stem, ext);
    let low = lower_seq(dotted(stem, ext));
    assert(low[low.len() - 6] == '.');
    assert(low[low.len() - 5] == 'j');
    assert(low[low.len() - 4] == 's');
    assert(low[low.len() - 3] == 'o');
    assert(low[low.len() - 2] == 'n');
    assert(low[low.len() - 1] == 'c');
    assert(!is_shell_name_spec(low));
}

#[verifier::spinoff_prover]
proof fn lemma_extension_16(stem: Seq<char>)
    requires
        !stem.contains('/'),
    ensures
        language_slug_spec(dotted(stem, "md"@)) == "markdown"@,
{
    let ext = "md"@;
    lemma_shell_names();
    lemma_extension_names();
    reveal_strlit("md");
    reveal_strlit("markdown");
    assert(lower_seq(ext) =~= ext);
    lemma_named_by_extension(stem, ext);
    lemma_not_special(stem, ext);
    let low = lower_seq(dotted(stem, ext));
    assert(low[low.len() - 3] == '.');
    assert(low[low.len() - 2] == 'm');
    assert(low[low.len() - 1] == 'd');
    assert(!is_shell_name_spec(low));
}

#[verifier::spinoff_prover]
proof fn lemma_extension_17(stem: Seq<char>)
    requires
        !stem.contains('/'),
    ensures
        language_slug_spec(dotted(stem, "markdown"@)) == "markdown"@,
{
    let ext = "markdown"@;
    lemma_shell_names();
    lemma_extension_names();
    reveal_strlit("markdown");
    reveal_strlit("markdown");
    assert(lower_seq(ext) =~= ext);
    lemma_named_by_extension(stem, ext);
    lemma_not_special(stem, ext);
    let low = lower_seq(dotted(stem, ext));
    assert(low[low.len() - 9] == '.');
    assert(low[low.len() - 8] == 'm');
    assert(low[low.len() - 7] == 'a');
    assert(low[low.len() - 6] == 'r');
    assert(low[low.len() - 5] == 'k');
    assert(low[low.len() - 4] == 'd');
    assert(low[low.len() - 3] == 'o');
    assert(low[low.len() - 2] == 'w');
    assert(low[low.len() - 1] == 'n');
    assert(!is_shell_name_spec(low));
}

#[verifier::spinoff_prover]
proof fn lemma_extension_18(stem: Seq<char>)
    requires
        !stem.contains('/'),
    ensures
        language_slug_spec(dotted(stem, "xml"@)) == "xml"@,
{
    let ext = "xml"@;
    lemma_shell_names();
    lemma_extension_names();
    reveal_strlit("xml");
    reveal_strlit("xml");
    assert(lower_seq(ext) =~= ext);
    lemma_named_by_extension(stem, ext);
    lemma_not_special(stem, ext);
    let low = lower_seq(dotted(stem, ext));
    assert(low[low.len() - 4] == '.');
    assert(low[low.len() - 3] == 'x');
    assert(low[low.len() - 2] == 'm');
    assert(low[low.len() - 1] == 'l');
    assert(!is_shell_name_spec(low));
}

#[verifier::spinoff_prover]
proof fn lemma_extension_19(stem: Seq<char>)
    requires
        !stem.contains('/'),
    ensures
        language_slug_spec(dotted(stem, "svg"@)) == "xml"@,
{
    let ext = "svg"@;
    lemma_shell_names();
    lemma_extension_names();
    reveal_strlit("svg");
    reveal_strlit("xml");
    assert(lower_seq(ext) =~= ext);
    lemma_named_by_extension(stem, ext);
    lemma_not_special(stem, ext);
    let low = lower_seq(dotted(stem, ext));
    assert(low[low.len() - 4] == '.');
    assert(low[low.len() - 3] == 's');
    assert(low[low.len() - 2] == 'v');
    assert(low[low.len() - 1] == 'g');
    assert(!is_shell_name_spec(low));
}

#[verifier::spinoff_prover]
proof fn lemma_extension_20(stem: Seq<char>)
    requires
        !stem.contains('/'),
    ensures
        language_slug_spec(dotted(stem, "yaml"@)) == "yaml"@,
{
    let ext = "yaml"@;
    lemma_shell_names();
    lemma_extension_names();
    reveal_strlit("yaml");
    reveal_strlit("yaml");
    assert(lower_seq(ext) =~= ext);
    lemma_named_by_extension(stem, ext);
    lemma_not_special(stem, ext);
    let low = lower_seq(dotted(stem, ext));
    assert(low[low.len() - 5] == '.');
    assert(low[low.len() - 4] == 'y');
    assert(low[low.len() - 3] == 'a');
    assert(low[low.len() - 2] == 'm');
    assert(low[low.len() - 1] == 'l');
    assert(!is_shell_name_spec(low));
}

#[verifier::spinoff_prover]
proof fn lemma_extension_21(stem: Seq<char>)
    requires
        !stem.contains('/'),
    ensures
        language_slug_spec(dotted(stem, "yml"@)) == "yaml"@,
{
    let ext = "yml"@;
    lemma_shell_names();
    lemma_extension_names();
    reveal_strlit("yml");
    reveal_strlit("yaml");
    assert(lower_seq(ext) =~= ext);
    lemma_named_by_extension(stem, ext);
    lemma_not_special(stem, ext);
    let low = lower_seq(dotted(stem, ext));
    assert(low[low.len() - 4] == '.');
    assert(low[low.len() - 3] == 'y');
    assert(low[low.len() - 2] == 'm');
    assert(low[low.len() - 1] == 'l');
    assert(!is_shell_name_spec(low));
}

#[verifier::spinoff_prover]
proof fn lemma_extension_22(stem: Seq<char>)
    requires
        !stem.contains('/'),
    ensures
        language_slug_spec(dotted(stem, "toml"@)) == "toml"@,
{
    let ext = "toml"@;
    lemma_shell_names();
    lemma_extension_names();
    reveal_strlit("toml");
    reveal_strlit("toml");
    assert(lower_seq(ext) =~= ext);
    lemma_named_by_extension(stem, ext);
    lemma_not_special(stem, ext);
    let low = lower_seq(dotted(stem, ext));
    assert(low[low.len() - 5] == '.');
    assert(low[low.len() - 4] == 't');
    assert(low[low.len() - 3] == 'o');
    assert(low[low.len() - 2] == 'm');
    assert(low[low.len() - 1] == 'l');
    assert(!is_shell_name_spec(low));
}

#[verifier::spinoff_prover]
proof fn lemma_extension_23(stem: Seq<char>)
    requires
        !stem.contains('/'),
    ensures
        language_slug_spec(dotted(stem, "py"@)) == "python"@,
{
    let ext = "py"@;
    lemma_shell_names();
    lemma_extension_names();
    reveal_strlit("py");
    reveal_strlit("python");
    assert(lower_seq(ext) =~= ext);
    lemma_named_by_extension(stem, ext);
    lemma_not_special(stem, ext);
    let low = lower_seq(dotted(stem, ext));
    assert(low[low.len() - 3] == '.');
    assert(low[low.len() - 2] == 'p');
    assert(low[low.len() - 1] == 'y');
    assert(!is_shell_name_spec(low));
}

#[verifier::spinoff_prover]
proof fn lemma_extension_24(stem: Seq<char>)
    requires
        !stem.contains('/'),
    ensures
        language_slug_spec(dotted(stem, "pyw"@)) == "python"@,
{
    let ext = "pyw"@;
    lemma_shell_names();
    lemma_extension_names();
    reveal_strlit("pyw");
    reveal_strlit("python");
    assert(lower_seq(ext) =~= ext);
    lemma_named_by_extension(stem, ext);
    lemma_not_special(stem, ext);
    let low = lower_seq(dotted(stem, ext));
    assert(low[low.len() - 4] == '.');
    assert(low[low.len() - 3] == 'p');
    assert(low[low.len() - 2] == 'y');
    assert(low[low.len() - 1] == 'w');
    assert(!is_shell_name_spec(low));
}

#[verifier::spinoff_prover]
proof fn lemma_extension_25(stem: Seq<char>)
    requires
        !stem.contains('/'),
    ensures
        language_slug_spec(dotted(stem, "php"@)) == "php"@,
{
    let ext = "php"@;
    lemma_shell_names();
    lemma_extension_names();
    reveal_strlit("php");
    reveal_strlit("php");
    assert(lower_seq(ext) =~= ext);
    lemma_named_by_extension(stem, ext);
    lemma_not_special(stem, ext);
    let low = lower_seq(dotted(stem, ext));
    assert(low[low.len() - 4] == '.');
    assert(low[low.len() - 3] == 'p');
    assert(low[low.len() - 2] == 'h');
    assert(low[low.len() - 1] == 'p');
    assert(!is_shell_name_spec(low));
}

#[verifier::spinoff_prover]
proof fn lemma_extension_26(stem: Seq<char>)
    requires
        !stem.contains('/'),
    ensures
        language_slug_spec(dotted(stem, "rb"@)) == "ruby"@,
{
    let ext = "rb"@;
    lemma_shell_names();
    lemma_extension_names();
    reveal_strlit("rb");
    reveal_strlit("ruby");
    assert(lower_seq(ext) =~= ext);
    lemma_named_by_extension(stem, ext);
    lemma_not_special(stem, ext);
    let low = lower_seq(dotted(stem, ext));
    assert(low[low.len() - 3] == '.');
    assert(low[low.len() - 2] == 'r');
    assert(low[low.len() - 1] == 'b');
    assert(!is_shell_name_spec(low));
}

#[verifier::spinoff_prover]
proof fn lemma_extension_27(stem: Seq<char>)
    requires
        !stem.contains('/'),
    ensures
        language_slug_spec(dotted(stem, "go"@)) == "go"@,
{
    let ext = "go"@;
    lemma_shell_names();
    lemma_extension_names();
    reveal_strlit("go");
    reveal_strlit("go");
    assert(lower_seq(ext) =~= ext);
    lemma_named_by_extension(stem, ext);
    lemma_not_special(stem, ext);
    let low = lower_seq(dotted(stem, ext));
    assert(low[low.len() - 3] == '.');
    assert(low[low.len() - 2] == 'g');
    assert(low[low.len() - 1] == 'o');
    assert(!is_shell_name_spec(low));
}

#[verifier::spinoff_prover]
proof fn lemma_extension_28(stem: Seq<char>)
    requires
        !stem.contains('/'),
    ensures
        language_slug_spec(dotted(stem, "sql"@)) == "sql"@,
{
    let ext = "sql"@;
    lemma_shell_names();
    lemma_extension_names();
    reveal_strlit("sql");
    reveal_strlit("sql");
    assert(lower_seq(ext) =~= ext);
    lemma_named_by_extension(stem, ext);
    lemma_not_special(stem, ext);
    let low = lower_seq(dotted(stem, ext));
    assert(low[low.len() - 4] == '.');
    assert(low[low.len() - 3] == 's');
    assert(low[low.len() - 2] == 'q');
    assert(low[low.len() - 1] == 'l');
    assert(!is_shell_name_spec(low));
}

#[verifier::spinoff_prover]
proof fn lemma_extension_29(stem: Seq<char>)
    requires
        !stem.contains('/'),
    ensures
        language_slug_spec(dotted(stem, "diff"@)) == "diff"@,
{
    let ext = "diff"@;
    lemma_shell_names();
    lemma_extension_names();
    reveal_strlit("diff");
    reveal_strlit("diff");
    assert(lower_seq(ext) =~= ext);
    lemma_named_by_extension(stem, ext);
    lemma_not_special(stem, ext);
    let low = lower_seq(dotted(stem, ext));
    assert(low[low.len() - 5] == '.');
    assert(low[low.len() - 4] == 'd');
    assert(low[low.len() - 3] == 'i');
    assert(low[low.len() - 2] == 'f');
    assert(low[low.len() - 1] == 'f');
    assert(!is_shell_name_spec(low));
}

#[verifier::spinoff_prover]
proof fn lemma_extension_30(stem: Seq<char>)
    requires
        !stem.contains('/'),
    ensures
        language_slug_spec(dotted(stem, "patch"@)) == "diff"@,
{
    let ext = "patch"@;
    lemma_shell_names();
    lemma_extension_names();
    reveal_strlit("patch");
    reveal_strlit("diff");
    assert(lower_seq(ext) =~= ext);
    lemma_named_by_extension(stem, ext);
    lemma_not_special(stem, ext);
    let low = lower_seq(dotted(stem, ext));
    assert(low[low.len() - 6] == '.');
    assert(low[low.len() - 5] == 'p');
    assert(low[low.len() - 4] == 'a');
    assert(low[low.len() - 3] == 't');
    assert(low[low.len() - 2] == 'c');
    assert(low[low.len() - 1] == 'h');
    assert(!is_shell_name_spec(low));
}

#[verifier::spinoff_prover]
proof fn lemma_extension_31(stem: Seq<char>)
    requires
        !stem.contains('/'),
    ensures
        language_slug_spec(dotted(stem, "ps1"@)) == "powershell"@,
{
    let ext = "ps1"@;
    lemma_shell_names();
    lemma_extension_names();
    reveal_strlit("ps1");
    reveal_strlit("powershell");
    assert(lower_seq(ext) =~= ext);
    lemma_named_by_extension(stem, ext);
    lemma_not_special(stem, ext);
    let low = lower_seq(dotted(stem, ext));
    assert(low[low.len() - 4] == '.');
    assert(low[low.len() - 3] == 'p');
    assert(low[low.len() - 2] == 's');
    assert(low[low.len() - 1] == '1');
    assert(!is_shell_name_spec(low));
}

#[verifier::spinoff_prover]
proof fn lemma_extension_32(stem: Seq<char>)
    requires
        !stem.contains('/'),
    ensures
        language_slug_spec(dotted(stem, "psd1"@)) == "powershell"@,
{
    let ext = "psd1"@;
    lemma_shell_names();
    lemma_extension_names();
    reveal_strlit("psd1");
    reveal_strlit("powershell");
    assert(lower_seq(ext) =~= ext);
    lemma_named_by_extension(stem, ext);
    lemma_not_special(stem, ext);
    let low = lower_seq(dotted(stem, ext));
    assert(low[low.len() - 5] == '.');
    assert(low[low.len() - 4] == 'p');
    assert(low[low.len() - 3] == 's');
    assert(low[low.len() - 2] == 'd');
    assert(low[low.len() - 1] == '1');
    assert(!is_shell_name_spec(low));
}

#[verifier::spinoff_prover]
proof fn lemma_extension_33(stem: Seq<char>)
    requires
        !stem.contains('/'),
    ensures
        language_slug_spec(dotted(stem, "psm1"@)) == "powershell"@,
{
    let ext = "psm1"@;
    lemma_shell_names();
    lemma_extension_names();
    reveal_strlit("psm1");
    reveal_strlit("powershell");
    assert(lower_seq(ext) =~= ext);
    lemma_named_by_extension(stem, ext);
    lemma_not_special(stem, ext);
    let low = lower_seq(dotted(stem, ext));
    assert(low[low.len() - 5] == '.');
    assert(low[low.len() - 4] == 'p');
    assert(low[low.len() - 3] == 's');
    assert(low[low.len() - 2] == 'm');
    assert(low[low.len() - 1] == '1');
    assert(!is_shell_name_spec(low));
}

#[verifier::spinoff_prover]
proof fn lemma_extension_34(stem: Seq<char>)
    requires
        !stem.contains('/'),
    ensures
        language_slug_spec(dotted(stem, "lua"@)) == "lua"@,
{
    let ext = "lua"@;
    lemma_shell_names();
    lemma_extension_names();
    reveal_strlit("lua");
    reveal_strlit("lua");
    assert(lower_seq(ext) =~= ext);
    lemma_named_by_extension(stem, ext);
    lemma_not_special(stem, ext);
    let low = lower_seq(dotted(stem, ext));
    assert(low[low.len() - 4] == '.');
    assert(low[low.len() - 3] == 'l');
    assert(low[low.len() - 2] == 'u');
    assert(low[low.len() - 1] == 'a');
    assert(!is_shell_name_spec(low));
}

#[verifier::spinoff_prover]
proof fn lemma_extension_35(stem: Seq<char>)
    requires
        !stem.contains('/'),
    ensures
        language_slug_spec(dotted(stem, "c"@)) == "c"@,
{
    let ext = "c"@;
    lemma_shell_names();
    lemma_extension_names();
    reveal_strlit("c");
    reveal_strlit("c");
    assert(lower_seq(ext) =~= ext);
    lemma_named_by_extension(stem, ext);
    lemma_not_special(stem, ext);
    let low = lower_seq(dotted(stem, ext));
    assert(low[low.len() - 2] == '.');
    assert(low[low.len() - 1] == 'c');
    assert(!is_shell_name_spec(low));
}

#[verifier::spinoff_prover]
proof fn lemma_extension_36(stem: Seq<char>)
    requires
        !stem.contains('/'),
    ensures
        language_slug_spec(dotted(stem, "h"@)) == "c"@,
{
    let ext = "h"@;
    lemma_shell_names();
    lemma_extension_names();
    reveal_strlit("h");
    reveal_strlit("c");
    assert(lower_seq(ext) =~= ext);
    lemma_named_by_extension(stem, ext);
    lemma_not_special(stem, ext);
    let low = lower_seq(dotted(stem, ext));
    assert(low[low.len() - 2] == '.');
    assert(low[low.len() - 1] == 'h');
    assert(!is_shell_name_spec(low));
}

#[verifier::spinoff_prover]
proof fn lemma_extension_37(stem: Seq<char>)
    requires
        !stem.contains('/'),
    ensures
        language_slug_spec(dotted(stem, "cc"@)) == "cpp"@,
{
    let ext = "cc"@;
    lemma_shell_names();
    lemma_extension_names();
    reveal_strlit("cc");
    reveal_strlit("cpp");
    assert(lower_seq(ext) =~= ext);
    lemma_named_by_extension(stem, ext);
    lemma_not_special(stem, ext);
    let low = lower_seq(dotted(stem, ext));
    assert(low[low.len() - 3] == '.');
    assert(low[low.len() - 2] == 'c');
    assert(low[low.len() - 1] == 'c');
    assert(!is_shell_name_spec(low));
}

#[verifier::spinoff_prover]
proof fn lemma_extension_38(stem: Seq<char>)
    requires
        !stem.contains('/'),
    ensures
        language_slug_spec(dotted(stem, "cpp"@)) == "cpp"@,
{
    let ext = "cpp"@;
    lemma_shell_names();
    lemma_extension_names();
    reveal_strlit("cpp");
    reveal_strlit("cpp");
    assert(lower_seq(ext) =~= ext);
    lemma_named_by_extension(stem, ext);
    lemma_not_special(stem, ext);
    let low = lower_seq(dotted(stem, ext));
    assert(low[low.len() - 4] == '.');
    assert(low[low.len() - 3] == 'c');
    assert(low[low.len() - 2] == 'p');
    assert(low[low.len() - 1] == 'p');
    assert(!is_shell_name_spec(low));
}

#[verifier::spinoff_prover]
proof fn lemma_extension_39(stem: Seq<char>)
    requires
        !stem.contains('/'),
    ensures
        language_slug_spec(dotted(stem, "cxx"@)) == "cpp"@,
{
    let ext = "cxx"@;
    lemma_shell_names();
    lemma_extension_names();
    reveal_strlit("cxx");
    reveal_strlit("cpp");
    assert(lower_seq(ext) =~= ext);
    lemma_named_by_extension(stem, ext);
    lemma_not_special(stem, ext);
    let low = lower_seq(dotted(stem, ext));
    assert(low[low.len() - 4] == '.');
    assert(low[low.len() - 3] == 'c');
    assert(low[low.len() - 2] == 'x');
    assert(low[low.len() - 1] == 'x');
    assert(!is_shell_name_spec(low));
}

#[verifier::spinoff_prover]
proof fn lemma_extension_40(stem: Seq<char>)
    requires
        !stem.contains('/'),
    ensures
        language_slug_spec(dotted(stem, "hh"@)) == "cpp"@,
{
    let ext = "hh"@;
    lemma_shell_names();
    lemma_extension_names();
    reveal_strlit("hh");
    reveal_strlit("cpp");
    assert(lower_seq(ext) =~= ext);
    lemma_named_by_extension(stem, ext);
    lemma_not_special(stem, ext);
    let low = lower_seq(dotted(stem, ext));
    assert(low[low.len() - 3] == '.');
    assert(low[low.len() - 2] == 'h');
    assert(low[low.len() - 1] == 'h');
    assert(!is_shell_name_spec(low));
}

#[verifier::spinoff_prover]
proof fn lemma_extension_41(stem: Seq<char>)
    requires
        !stem.contains('/'),
    ensures
        language_slug_spec(dotted(stem, "hpp"@)) == "cpp"@,
{
    let ext = "hpp"@;
    lemma_shell_names();
    lemma_extension_names();
    reveal_strlit("hpp");
    reveal_strlit("cpp");
    assert(lower_seq(ext) =~= ext);
    lemma_named_by_extension(stem, ext);
    lemma_not_special(stem, ext);
    let low = lower_seq(dotted(stem, ext));
    assert(low[low.len() - 4] == '.');
    assert(low[low.len() - 3] == 'h');
    assert(low[low.len() - 2] == 'p');
    assert(low[low.len() - 1] == 'p');
    assert(!is_shell_name_spec(low));
}

#[verifier::spinoff_prover]
proof fn lemma_extension_42(stem: Seq<char>)
    requires
        !stem.contains('/'),
    ensures
        language_slug_spec(dotted(stem, "hxx"@)) == "cpp"@,
{
    let ext = "hxx"@;
    lemma_shell_names();
    lemma_extension_names();
    reveal_strlit("hxx");
    reveal_strlit("cpp");
    assert(lower_seq(ext) =~= ext);
    lemma_named_by_extension(stem, ext);
    lemma_not_special(stem, ext);
    let low = lower_seq(dotted(stem, ext));
    assert(low[low.len() - 4] == '.');
    assert(low[low.len() - 3] == 'h');
    assert(low[low.len() - 2] == 'x');
    assert(low[low.len() - 1] == 'x');
    assert(!is_shell_name_spec(low));
}

#[verifier::spinoff_prover]
proof fn lemma_extension_43(stem: Seq<char>)
    requires
        !stem.contains('/'),
    ensures
        language_slug_spec(dotted(stem, "cs"@)) == "c-sharp"@,
{
    let ext = "cs"@;
    lemma_shell_names();
    lemma_extension_names();
    reveal_strlit("cs");
    reveal_strlit("c-sharp");
    assert(lower_seq(ext) =~= ext);
    lemma_named_by_extension(stem, ext);
    lemma_not_special(stem, ext);
    let low = lower_seq(dotted(stem, ext));
    assert(low[low.len() - 3] == '.');
    assert(low[low.len() - 2] == 'c');
    assert(low[low.len() - 1] == 's');
    assert(!is_shell_name_spec(low));
}

#[verifier::spinoff_prover]
proof fn lemma_extension_44(stem: Seq<char>)
    requires
        !stem.contains('/'),
    ensures
        language_slug_spec(dotted(stem, "java"@)) == "java"@,
{
    let ext = "java"@;
    lemma_shell_names();
    lemma_extension_names();
    reveal_strlit("java");
    reveal_strlit("java");
    assert(lower_seq(ext) =~= ext);
    lemma_named_by_extension(stem, ext);
    lemma_not_special(stem, ext);
    let low = lower_seq(dotted(stem, ext));
    assert(low[low.len() - 5] == '.');
    assert(low[low.len() - 4] == 'j');
    assert(low[low.len() - 3] == 'a');
    assert(low[low.len() - 2] == 'v');
    assert(low[low.len() - 1] == 'a');
    assert(!is_shell_name_spec(low));
}

#[verifier::spinoff_prover]
proof fn lemma_extension_45(stem: Seq<char>)
    requires
        !stem.contains('/'),
    ensures
        language_slug_spec(dotted(stem, "kt"@)) == "kotlin"@,
{
    let ext = "kt"@;
    lemma_shell_names();
    lemma_extension_names();
    reveal_strlit("kt");
    reveal_strlit("kotlin");
    assert(lower_seq(ext) =~= ext);
    lemma_named_by_extension(stem, ext);
    lemma_not_special(stem, ext);
    let low = lower_seq(dotted(stem, ext));
    assert(low[low.len() - 3] == '.');
    assert(low[low.len() - 2] == 'k');
    assert(low[low.len() - 1] == 't');
    assert(!is_shell_name_spec(low));
}

#[verifier::spinoff_prover]
proof fn lemma_extension_46(stem: Seq<char>)
    requires
        !stem.contains('/'),
    ensures
        language_slug_spec(dotted(stem, "kts"@)) == "kotlin"@,
{
    let ext = "kts"@;
    lemma_shell_names();
    lemma_extension_names();
    reveal_strlit("kts");
    reveal_strlit("kotlin");
    assert(lower_seq(ext) =~= ext);
    lemma_named_by_extension(stem, ext);
    lemma_not_special(stem, ext);
    let low = lower_seq(dotted(stem, ext));
    assert(low[low.len() - 4] == '.');
    assert(low[low.len() - 3] == 'k');
    assert(low[low.len() - 2] == 't');
    assert(low[low.len() - 1] == 's');
    assert(!is_shell_name_spec(low));
}

#[verifier::spinoff_prover]
proof fn lemma_extension_47(stem: Seq<char>)
    requires
        !stem.contains('/'),
    ensures
        language_slug_spec(dotted(stem, "dart"@)) == "dart"@,
{
    let ext = "dart"@;
    lemma_shell_names();
    lemma_extension_names();
    reveal_strlit("dart");
    reveal_strlit("dart");
    assert(lower_seq(ext) =~= ext);
    lemma_named_by_extension(stem, ext);
    lemma_not_special(stem, ext);
    let low = lower_seq(dotted(stem, ext));
    assert(low[low.len() - 5] == '.');
    assert(low[low.len() - 4] == 'd');
    assert(low[low.len() - 3] == 'a');
    assert(low[low.len() - 2] == 'r');
    assert(low[low.len() - 1] == 't');
    assert(!is_shell_name_spec(low));
}

#[verifier::spinoff_prover]
proof fn lemma_extension_48(stem: Seq<char>)
    requires
        !stem.contains('/'),
    ensures
        language_slug_spec(dotted(stem, "ini"@)) == "ini"@,
{
    let ext = "ini"@;
    lemma_shell_names();
    lemma_extension_names();
    reveal_strlit("ini");
    reveal_strlit("ini");
    assert(lower_seq(ext) =~= ext);
    lemma_named_by_extension(stem, ext);
    lemma_not_special(stem, ext);
    let low = lower_seq(dotted(stem, ext));
    assert(low[low.len() - 4] == '.');
    assert(low[low.len() - 3] == 'i');
    assert(low[low.len() - 2] == 'n');
    assert(low[low.len() - 1] == 'i');
    assert(!is_shell_name_spec(low));
}

#[verifier::spinoff_prover]
proof fn lemma_extension_49(stem: Seq<char>)
    requires
        !stem.contains('/'),
    ensures
        language_slug_spec(dotted(stem, "properties"@)) == "ini"@,
{
    let ext = "properties"@;
    lemma_shell_names();
    lemma_extension_names();
    reveal_strlit("properties");
    reveal_strlit("ini");
    assert(lower_seq(ext) =~= ext);
    lemma_named_by_extension(stem, ext);
    lemma_not_special(stem, ext);
    let low = lower_seq(dotted(stem, ext));
    assert(low[low.len() - 11] == '.');
    assert(low[low.len() - 10] == 'p');
    assert(low[low.len() - 9] == 'r');
    assert(low[low.len() - 8] == 'o');
    assert(low[low.len() - 7] == 'p');
    assert(low[low.len() - 6] == 'e');
    assert(low[low.len() - 5] == 'r');
    assert(low[low.len() - 4] == 't');
    assert(low[low.len() - 3] == 'i');
    assert(low[low.len() - 2] == 'e');
    assert(low[low.len() - 1] == 's');
    assert(!is_shell_name_spec(low));
}

#[verifier::spinoff_prover]
proof fn lemma_extension_50(stem: Seq<char>)
    requires
        !stem.contains('/'),
    ensures
        language_slug_spec(dotted(stem, "sh"@)) == "bash"@,
{
    let ext = "sh"@;
    lemma_shell_names();
    lemma_extension_names();
    reveal_strlit("sh");
    reveal_strlit("bash");
    assert(lower_seq(ext) =~= ext);
    lemma_named_by_extension(stem, ext);
    lemma_not_special(stem, ext);
    let low = lower_seq(dotted(stem, ext));
    assert(low[low.len() - 3] == '.');
    assert(low[low.len() - 2] == 's');
    assert(low[low.len() - 1] == 'h');
    assert(is_shell_name_spec(low));
}

#[verifier::spinoff_prover]
proof fn lemma_extension_51(stem: Seq<char>)
    requires
        !stem.contains('/'),
    ensures
        language_slug_spec(dotted(stem, "bash"@)) == "bash"@,
{
    let ext = "bash"@;
    lemma_shell_names();
    lemma_extension_names();
    reveal_strlit("bash");
    reveal_strlit("bash");
    assert(lower_seq(ext) =~= ext);
    lemma_named_by_extension(stem, ext);
    lemma_not_special(stem, ext);
    let low = lower_seq(dotted(stem, ext));
    assert(low[low.len() - 5] == '.');
    assert(low[low.len() - 4] == 'b');
    assert(low[low.len() - 3] == 'a');
    assert(low[low.len() - 2] == 's');
    assert(low[low.len() - 1] == 'h');
    assert(is_shell_name_spec(low));
}

#[verifier::spinoff_prover]
proof fn lemma_extension_52(stem: Seq<char>)
    requires
        !stem.contains('/'),
    ensures
        language_slug_spec(dotted(stem, "zsh"@)) == "bash"@,
{
    let ext = "zsh"@;
    lemma_shell_names();
    lemma_extension_names();
    reveal_strlit("zsh");
    reveal_strlit("bash");
    assert(lower_seq(ext) =~= ext);
    lemma_named_by_extension(stem, ext);
    lemma_not_special(stem, ext);
    let low = lower_seq(dotted(stem, ext));
    assert(low[low.len() - 4] == '.');
    assert(low[low.len() - 3] == 'z');
    assert(low[low.len() - 2] == 's');
    assert(low[low.len() - 1] == 'h');
    assert(is_shell_name_spec(low));
}

#[verifier::spinoff_prover]
proof fn lemma_extension_53(stem: Seq<char>)
    requires
        !stem.contains('/'),
    ensures
        language_slug_spec(dotted(stem, "ksh"@)) == "bash"@,
{
    let ext = "ksh"@;
    lemma_shell_names();
    lemma_extension_names();
    reveal_strlit("ksh");
    reveal_strlit("bash");
    assert(lower_seq(ext) =~= ext);
    lemma_named_by_extension(stem, ext);
    lemma_not_special(stem, ext);
    let low = lower_seq(dotted(stem, ext));
    assert(low[low.len() - 4] == '.');
    assert(low[low.len() - 3] == 'k');
    assert(low[low.len() - 2] == 's');
    assert(low[low.len() - 1] == 'h');
    assert(is_shell_name_spec(low));
}

/// A file whose name ends in one of the listed extensions, after a dot,
/// gets that extension's language, whatever comes before the dot and
/// whatever the ASCII case: `.py` is Python, `.rs` Rust, `.sh` shell and so
/// on, never the fallback.
pub proof fn extensions_name_their_language(stem: Seq<char>, k: int)
    requires
        !stem.contains('/'),
        0 <= k < extension_languages().len(),
    ensures
        language_slug_spec(dotted(stem, extension_languages()[k].0)) == extension_languages()[k].1,
{
    if k == 0 {
        lemma_extension_0(stem);
    } else if k == 1 {
        lemma_extension_1(stem);
    } else if k == 2 {
        lemma_extension_2(stem);
    } else if k == 3 {
        lemma_extension_3(stem);
    } else if k == 4 {
        lemma_extension_4(stem);
    } else if k == 5 {
        lemma_extension_5(stem);
    } else if k == 6 {
        lemma_extension_6(stem);
    } else if k == 7 {
        lemma_extension_7(stem);
    } else if k == 8 {
        lemma_extension_8(stem);
    } else if k == 9 {
        lemma_extension_9(stem);
    } else if k == 10 {
        lemma_extension_10(stem);
    } else if k == 11 {
        lemma_extension_11(stem);
    } else if k == 12 {
        lemma_extension_12(stem);
    } else if k == 13 {
        lemma_extension_13(stem);
    } else if k == 14 {
        lemma_extension_14(stem);
    } else if k == 15 {
        lemma_extension_15(stem);
    } else if k == 16 {
        lemma_extension_16(stem);
    } else if k == 17 {
        lemma_extension_17(stem);
    } else if k == 18 {
        lemma_extension_18(stem);
    } else if k == 19 {
        lemma_extension_19(stem);
    } else if k == 20 {
        lemma_extension_20(stem);
    } else if k == 21 {
        lemma_extension_21(stem);
    } else if k == 22 {
        lemma_extension_22(stem);
    } else if k == 23 {
        lemma_extension_23(stem);
    } else if k == 24 {
        lemma_extension_24(stem);
    } else if k == 25 {
        lemma_extension_25(stem);
    } else if k == 26 {
        lemma_extension_26(stem);
    } else if k == 27 {
        lemma_extension_27(stem);
    } else if k == 28 {
        lemma_extension_28(stem);
    } else if k == 29 {
        lemma_extension_29(stem);
    } else if k == 30 {
        lemma_extension_30(stem);
    } else if k == 31 {
        lemma_extension_31(stem);
    } else if k == 32 {
        lemma_extension_32(stem);
    } else if k == 33 {
        lemma_extension_33(stem);
    } else if k == 34 {
        lemma_extension_34(stem);
    } else if k == 35 {
        lemma_extension_35(stem);
    } else if k == 36 {
        lemma_extension_36(stem);
    } else if k == 37 {
        lemma_extension_37(stem);
    } else if k == 38 {
        lemma_extension_38(stem);
    } else if k == 39 {
        lemma_extension_39(stem);
    } else if k == 40 {
        lemma_extension_40(stem);
    } else if k == 41 {
        lemma_extension_41(stem);
    } else if k == 42 {
        lemma_extension_42(stem);
    } else if k == 43 {
        lemma_extension_43(stem);
    } else if k == 44 {
        lemma_extension_44(stem);
    } else if k == 45 {
        lemma_extension_45(stem);
    } else if k == 46 {
        lemma_extension_46(stem);
    } else if k == 47 {
        lemma_extension_47(stem);
    } else if k == 48 {
        lemma_extension_48(stem);
    } else if k == 49 {
        lemma_extension_49(stem);
    } else if k == 50 {
        lemma_extension_50(stem);
    } else if k == 51 {
        lemma_extension_51(stem);
    } else if k == 52 {
        lemma_extension_52(stem);
    } else if k == 53 {
        lemma_extension_53(stem);
    }
}

/// The file names that decide a language by themselves, as `(name, slug)`
/// pairs: shell start-up files and hooks, and container build files.
pub open spec fn special_names() -> Seq<(Seq<char>, Seq<char>)> {
    seq![
        (".bash_aliases"@, "bash"@),
        (".bash_login"@, "bash"@),
        (".bash_logout"@, "bash"@),
        (".bash_profile"@, "bash"@),
        (".bashrc"@, "bash"@),
        (".profile"@, "bash"@),
        (".zprofile"@, "bash"@),
        (".zshenv"@, "bash"@),
        (".zshrc"@, "bash"@),
        ("pre-commit"@, "bash"@),
        ("pre-push"@, "bash"@),
        ("post-checkout"@, "bash"@),
        ("commit-msg"@, "bash"@),
        ("dockerfile"@, "dockerfile"@),
        ("containerfile"@, "dockerfile"@),
    ]
}

#[verifier::spinoff_prover]
proof fn lemma_special_0()
    ensures
        language_slug_spec(".bash_aliases"@) == "bash"@,
        !".bash_aliases"@.contains('/'),
{
    let name = ".bash_aliases"@;
    lemma_shell_names();
    reveal_strlit(".bash_aliases");
    reveal_strlit("bash");
    reveal_strlit("containerfile");
    reveal_strlit(".dockerfile");
    assert(name =~= seq!['.', 'b', 'a', 's', 'h', '_', 'a', 'l', 'i', 'a', 's', 'e', 's']);
    assert forall|i: int| 0 <= i < name.len() implies name[i] != '/' by {
    }
    assert(lower_seq(name) =~= name);
    lemma_last_index_past(Seq::empty(), name, '/');
    assert(Seq::<char>::empty() + name =~= name);
    assert(file_name(name) =~= name);
    if name.len() >= 11 {
        let suffix = name.skip(name.len() - 11);
        assert(suffix[0] == name[name.len() - 11]);
        assert(suffix[1] == name[name.len() - 10]);
        assert(!docker_suffix(name));
    }
}

#[verifier::spinoff_prover]
proof fn lemma_special_1()
    ensures
        language_slug_spec(".bash_login"@) == "bash"@,
        !".bash_login"@.contains('/'),
{
    let name = ".bash_login"@;
    lemma_shell_names();
    reveal_strlit(".bash_login");
    reveal_strlit("bash");
    reveal_strlit("containerfile");
    reveal_strlit(".dockerfile");
    assert(name =~= seq!['.', 'b', 'a', 's', 'h', '_', 'l', 'o', 'g', 'i', 'n']);
    assert forall|i: int| 0 <= i < name.len() implies name[i] != '/' by {
    }
    assert(lower_seq(name) =~= name);
    lemma_last_index_past(Seq::empty(), name, '/');
    assert(Seq::<char>::empty() + name =~= name);
    assert(file_name(name) =~= name);
    if name.len() >= 11 {
        let suffix = name.skip(name.len() - 11);
        assert(suffix[0] == name[name.len() - 11]);
        assert(suffix[1] == name[name.len() - 10]);
        assert(!docker_suffix(name));
    }
}

#[verifier::spinoff_prover]
proof fn lemma_special_2()
    ensures
        language_slug_spec(".bash_logout"@) == "bash"@,
        !".bash_logout"@.contains('/'),
{
    let name = ".bash_logout"@;
    lemma_shell_names();
    reveal_strlit(".bash_logout");
    reveal_strlit("bash");
    reveal_strlit("containerfile");
    reveal_strlit(".dockerfile");
    assert(name =~= seq!['.', 'b', 'a', 's', 'h', '_', 'l', 'o', 'g', 'o', 'u', 't']);
    assert forall|i: int| 0 <= i < name.len() implies name[i] != '/' by {
    }
    assert(lower_seq(name) =~= name);
    lemma_last_index_past(Seq::empty(), name, '/');
    assert(Seq::<char>::empty() + name =~= name);
    assert(file_name(name) =~= name);
    if name.len() >= 11 {
        let suffix = name.skip(name.len() - 11);
        assert(suffix[0] == name[name.len() - 11]);
        assert(suffix[1] == name[name.len() - 10]);
        assert(!docker_suffix(name));
    }
}

#[verifier::spinoff_prover]
proof fn lemma_special_3()
    ensures
        language_slug_spec(".bash_profile"@) == "bash"@,
        !".bash_profile"@.contains('/'),
{
    let name = ".bash_profile"@;
    lemma_shell_names();
    reveal_strlit(".bash_profile");
    reveal_strlit("bash");
    reveal_strlit("containerfile");
    reveal_strlit(".dockerfile");
    assert(name =~= seq!['.', 'b', 'a', 's', 'h', '_', 'p', 'r', 'o', 'f', 'i', 'l', 'e']);
    assert forall|i: int| 0 <= i < name.len() implies name[i] != '/' by {
    }
    assert(lower_seq(name) =~= name);
    lemma_last_index_past(Seq::empty(), name, '/');
    assert(Seq::<char>::empty() + name =~= name);
    assert(file_name(name) =~= name);
    if name.len() >= 11 {
        let suffix = name.skip(name.len() - 11);
        assert(suffix[0] == name[name.len() - 11]);
        assert(suffix[1] == name[name.len() - 10]);
        assert(!docker_suffix(name));
    }
}

#[verifier::spinoff_prover]
proof fn lemma_special_4()
    ensures
        language_slug_spec(".bashrc"@) == "bash"@,
        !".bashrc"@.contains('/'),
{
    let name = ".bashrc"@;
    lemma_shell_names();
    reveal_strlit(".bashrc");
    reveal_strlit("bash");
    reveal_strlit("containerfile");
    reveal_strlit(".dockerfile");
    assert(name =~= seq!['.', 'b', 'a', 's', 'h', 'r', 'c']);
    assert forall|i: int| 0 <= i < name.len() implies name[i] != '/' by {
    }
    assert(lower_seq(name) =~= name);
    lemma_last_index_past(Seq::empty(), name, '/');
    assert(Seq::<char>::empty() + name =~= name);
    assert(file_name(name) =~= name);
    if name.len() >= 11 {
        let suffix = name.skip(name.len() - 11);
        assert(suffix[0] == name[name.len() - 11]);
        assert(suffix[1] == name[name.len() - 10]);
        assert(!docker_suffix(name));
    }
}

#[verifier::spinoff_prover]
proof fn lemma_special_5()
    ensures
        language_slug_spec(".profile"@) == "bash"@,
        !".profile"@.contains('/'),
{
    let name = ".profile"@;
    lemma_shell_names();
    reveal_strlit(".profile");
    reveal_strlit("bash");
    reveal_strlit("containerfile");
    reveal_strlit(".dockerfile");
    assert(name =~= seq!['.', 'p', 'r', 'o', 'f', 'i', 'l', 'e']);
    assert forall|i: int| 0 <= i < name.len() implies name[i] != '/' by {
    }
    assert(lower_seq(name) =~= name);
    lemma_last_index_past(Seq::empty(), name, '/');
    assert(Seq::<char>::empty() + name =~= name);
    assert(file_name(name) =~= name);
    if name.len() >= 11 {
        let suffix = name.skip(name.len() - 11);
        assert(suffix[0] == name[name.len() - 11]);
        assert(suffix[1] == name[name.len() - 10]);
        assert(!docker_suffix(name));
    }
}

#[verifier::spinoff_prover]
proof fn lemma_special_6()
    ensures
        language_slug_spec(".zprofile"@) == "bash"@,
        !".zprofile"@.contains('/'),
{
    let name = ".zprofile"@;
    lemma_shell_names();
    reveal_strlit(".zprofile");
    reveal_strlit("bash");
    reveal_strlit("containerfile");
    reveal_strlit(".dockerfile");
    assert(name =~= seq!['.', 'z', 'p', 'r', 'o', 'f', 'i', 'l', 'e']);
    assert forall|i: int| 0 <= i < name.len() implies name[i] != '/' by {
    }
    assert(lower_seq(name) =~= name);
    lemma_last_index_past(Seq::empty(), name, '/');
    assert(Seq::<char>::empty() + name =~= name);
    assert(file_name(name) =~= name);
    if name.len() >= 11 {
        let suffix = name.skip(name.len() - 11);
        assert(suffix[0] == name[name.len() - 11]);
        assert(suffix[1] == name[name.len() - 10]);
        assert(!docker_suffix(name));
    }
}

#[verifier::spinoff_prover]
proof fn lemma_special_7()
    ensures
        language_slug_spec(".zshenv"@) == "bash"@,
        !".zshenv"@.contains('/'),
{
    let name = ".zshenv"@;
    lemma_shell_names();
    reveal_strlit(".zshenv");
    reveal_strlit("bash");
    reveal_strlit("containerfile");
    reveal_strlit(".dockerfile");
    assert(name =~= seq!['.', 'z', 's', 'h', 'e', 'n', 'v']);
    assert forall|i: int| 0 <= i < name.len() implies name[i] != '/' by {
    }
    assert(lower_seq(name) =~= name);
    lemma_last_index_past(Seq::empty(), name, '/');
    assert(Seq::<char>::empty() + name =~= name);
    assert(file_name(name) =~= name);
    if name.len() >= 11 {
        let suffix = name.skip(name.len() - 11);
        assert(suffix[0] == name[name.len() - 11]);
        assert(suffix[1] == name[name.len() - 10]);
        assert(!docker_suffix(name));
    }
}

#[verifier::spinoff_prover]
proof fn lemma_special_8()
    ensures
        language_slug_spec(".zshrc"@) == "bash"@,
        !".zshrc"@.contains('/'),
{
    let name = ".zshrc"@;
    lemma_shell_names();
    reveal_strlit(".zshrc");
    reveal_strlit("bash");
    reveal_strlit("containerfile");
    reveal_strlit(".dockerfile");
    assert(name =~= seq!['.', 'z', 's', 'h', 'r', 'c']);
    assert forall|i: int| 0 <= i < name.len() implies name[i] != '/' by {
    }
    assert(lower_seq(name) =~= name);
    lemma_last_index_past(Seq::empty(), name, '/');
    assert(Seq::<char>::empty() + name =~= name);
    assert(file_name(name) =~= name);
    if name.len() >= 11 {
        let suffix = name.skip(name.len() - 11);
        assert(suffix[0] == name[name.len() - 11]);
        assert(suffix[1] == name[name.len() - 10]);
        assert(!docker_suffix(name));
    }
}

#[verifier::spinoff_prover]
proof fn lemma_special_9()
    ensures
        language_slug_spec("pre-commit"@) == "bash"@,
        !"pre-commit"@.contains('/'),
{
    let name = "pre-commit"@;
    lemma_shell_names();
    reveal_strlit("pre-commit");
    reveal_strlit("bash");
    reveal_strlit("containerfile");
    reveal_strlit(".dockerfile");
    assert(name =~= seq!['p', 'r', 'e', '-', 'c', 'o', 'm', 'm', 'i', 't']);
    assert forall|i: int| 0 <= i < name.len() implies name[i] != '/' by {
    }
    assert(lower_seq(name) =~= name);
    lemma_last_index_past(Seq::empty(), name, '/');
    assert(Seq::<char>::empty() + name =~= name);
    assert(file_name(name) =~= name);
    if name.len() >= 11 {
        let suffix = name.skip(name.len() - 11);
        assert(suffix[0] == name[name.len() - 11]);
        assert(suffix[1] == name[name.len() - 10]);
        assert(!docker_suffix(name));
    }
}

#[verifier::spinoff_prover]
proof fn lemma_special_10()
    ensures
        language_slug_spec("pre-push"@) == "bash"@,
        !"pre-push"@.contains('/'),
{
    let name = "pre-push"@;
    lemma_shell_names();
    reveal_strlit("pre-push");
    reveal_strlit("bash");
    reveal_strlit("containerfile");
    reveal_strlit(".dockerfile");
    assert(name =~= seq!['p', 'r', 'e', '-', 'p', 'u', 's', 'h']);
    assert forall|i: int| 0 <= i < name.len() implies name[i] != '/' by {
    }
    assert(lower_seq(name) =~= name);
    lemma_last_index_past(Seq::empty(), name, '/');
    assert(Seq::<char>::empty() + name =~= name);
    assert(file_name(name) =~= name);
    if name.len() >= 11 {
        let suffix = name.skip(name.len() - 11);
        assert(suffix[0] == name[name.len() - 11]);
        assert(suffix[1] == name[name.len() - 10]);
        assert(!docker_suffix(name));
    }
}

#[verifier::spinoff_prover]
proof fn lemma_special_11()
    ensures
        language_slug_spec("post-checkout"@) == "bash"@,
        !"post-checkout"@.contains('/'),
{
    let name = "post-checkout"@;
    lemma_shell_names();
    reveal_strlit("post-checkout");
    reveal_strlit("bash");
    reveal_strlit("containerfile");
    reveal_strlit(".dockerfile");
    assert(name =~= seq!['p', 'o', 's', 't', '-', 'c', 'h', 'e', 'c', 'k', 'o', 'u', 't']);
    assert forall|i: int| 0 <= i < name.len() implies name[i] != '/' by {
    }
    assert(lower_seq(name) =~= name);
    lemma_last_index_past(Seq::empty(), name, '/');
    assert(Seq::<char>::empty() + name =~= name);
    assert(file_name(name) =~= name);
    if name.len() >= 11 {
        let suffix = name.skip(name.len() - 11);
        assert(suffix[0] == name[name.len() - 11]);
        assert(suffix[1] == name[name.len() - 10]);
        assert(!docker_suffix(name));
    }
}

#[verifier::spinoff_prover]
proof fn lemma_special_12()
    ensures
        language_slug_spec("commit-msg"@) == "bash"@,
        !"commit-msg"@.contains('/'),
{
    let name = "commit-msg"@;
    lemma_shell_names();
    reveal_strlit("commit-msg");
    reveal_strlit("bash");
    reveal_strlit("containerfile");
    reveal_strlit(".dockerfile");
    assert(name =~= seq!['c', 'o', 'm', 'm', 'i', 't', '-', 'm', 's', 'g']);
    assert forall|i: int| 0 <= i < name.len() implies name[i] != '/' by {
    }
    assert(lower_seq(name) =~= name);
    lemma_last_index_past(Seq::empty(), name, '/');
    assert(Seq::<char>::empty() + name =~= name);
    assert(file_name(name) =~= name);
    if name.len() >= 11 {
        let suffix = name.skip(name.len() - 11);
        assert(suffix[0] == name[name.len() - 11]);
        assert(suffix[1] == name[name.len() - 10]);
        assert(!docker_suffix(name));
    }
}

#[verifier::spinoff_prover]
proof fn lemma_special_13()
    ensures
        language_slug_spec("dockerfile"@) == "dockerfile"@,
        !"dockerfile"@.contains('/'),
{
    let name = "dockerfile"@;
    lemma_shell_names();
    reveal_strlit("dockerfile");
    reveal_strlit("dockerfile");
    reveal_strlit("containerfile");
    reveal_strlit(".dockerfile");
    assert(name =~= seq!['d', 'o', 'c', 'k', 'e', 'r', 'f', 'i', 'l', 'e']);
    assert forall|i: int| 0 <= i < name.len() implies name[i] != '/' by {
    }
    assert(lower_seq(name) =~= name);
    lemma_last_index_past(Seq::empty(), name, '/');
    assert(Seq::<char>::empty() + name =~= name);
    assert(file_name(name) =~= name);
    if name.len() >= 11 {
        let suffix = name.skip(name.len() - 11);
        assert(suffix[0] == name[name.len() - 11]);
        assert(suffix[1] == name[name.len() - 10]);
        assert(!docker_suffix(name));
    }
}

#[verifier::spinoff_prover]
proof fn lemma_special_14()
    ensures
        language_slug_spec("containerfile"@) == "dockerfile"@,
        !"containerfile"@.contains('/'),
{
    let name = "containerfile"@;
    lemma_shell_names();
    reveal_strlit("containerfile");
    reveal_strlit("dockerfile");
    reveal_strlit("containerfile");
    reveal_strlit(".dockerfile");
    assert(name =~= seq!['c', 'o', 'n', 't', 'a', 'i', 'n', 'e', 'r', 'f', 'i', 'l', 'e']);
    assert forall|i: int| 0 <= i < name.len() implies name[i] != '/' by {
    }
    assert(lower_seq(name) =~= name);
    lemma_last_index_past(Seq::empty(), name, '/');
    assert(Seq::<char>::empty() + name =~= name);
    assert(file_name(name) =~= name);
    if name.len() >= 11 {
        let suffix = name.skip(name.len() - 11);
        assert(suffix[0] == name[name.len() - 11]);
        assert(suffix[1] == name[name.len() - 10]);
        assert(!docker_suffix(name));
    }
}

/// A file named like a shell start-up file or hook is shell, and one named
/// `Dockerfile` or `Containerfile` is a container build file, in any
/// directory and whatever the ASCII case of the path.
pub proof fn special_names_name_their_language(dir: Seq<char>, k: int)
    requires
        0 <= k < special_names().len(),
    ensures
        language_slug_spec(dir + seq!['/'] + special_names()[k].0) == special_names()[k].1,
        language_slug_spec(special_names()[k].0) == special_names()[k].1,
{
    if k == 0 {
        lemma_special_0();
    } else if k == 1 {
        lemma_special_1();
    } else if k == 2 {
        lemma_special_2();
    } else if k == 3 {
        lemma_special_3();
    } else if k == 4 {
        lemma_special_4();
    } else if k == 5 {
        lemma_special_5();
    } else if k == 6 {
        lemma_special_6();
    } else if k == 7 {
        lemma_special_7();
    } else if k == 8 {
        lemma_special_8();
    } else if k == 9 {
        lemma_special_9();
    } else if k == 10 {
        lemma_special_10();
    } else if k == 11 {
        lemma_special_11();
    } else if k == 12 {
        lemma_special_12();
    } else if k == 13 {
        lemma_special_13();
    } else if k == 14 {
        lemma_special_14();
    }
    language_ignores_directories(dir, special_names()[k].0);
}

/// Any path ending in `.dockerfile` is a container build file.
pub proof fn dockerfile_suffixes_name_dockerfiles(stem: Seq<char>)
    ensures
        language_slug_spec(stem + ".dockerfile"@) == "dockerfile"@,
{
    let tail = ".dockerfile"@;
    reveal_strlit(".dockerfile");
    reveal_strlit("dockerfile");
    let path = stem + tail;
    let low = lower_seq(path);
    assert forall|i: int| 0 <= i < tail.len() implies #[trigger] low[stem.len() + i] == tail[i] by {
        assert(path[stem.len() + i] == tail[i]);
    }
    assert(low.skip(low.len() - tail.len()) =~= tail);
}

/// A file named `nginx.conf`, in any directory and whatever the ASCII case,
/// is an nginx configuration.
pub proof fn nginx_configs_are_nginx(dir: Seq<char>)
    ensures
        language_slug_spec(dir + seq!['/'] + "nginx.conf"@) == "nginx"@,
        language_slug_spec("nginx.conf"@) == "nginx"@,
{
    let stem = "nginx"@;
    let ext = "conf"@;
    lemma_shell_names();
    lemma_extension_names();
    reveal_strlit("nginx");
    reveal_strlit("conf");
    reveal_strlit("nginx.conf");
    assert(stem =~= seq!['n', 'g', 'i', 'n', 'x']);
    assert(ext =~= seq!['c', 'o', 'n', 'f']);
    assert forall|i: int| 0 <= i < stem.len() implies stem[i] != '/' by {
    }
    assert forall|i: int| 0 <= i < ext.len() implies ext[i] != '/' && ext[i] != '.' by {
    }
    assert(lower_seq(ext) =~= ext);
    lemma_named_by_extension(stem, ext);
    let low = lower_seq(dotted(stem, ext));
    assert(lower_seq(stem) =~= stem);
    assert(low =~= "nginx.conf"@);
    assert(dotted(stem, ext) =~= "nginx.conf"@);
    assert(!is_shell_name_spec(low));
    language_ignores_directories(dir, "nginx.conf"@);
}

proof fn lemma_label_names()
    ensures
        "bash"@ == seq!['b', 'a', 's', 'h'],
        "Shell"@ == seq!['S', 'h', 'e', 'l', 'l'],
        "c-sharp"@ == seq!['c', '-', 's', 'h', 'a', 'r', 'p'],
        "C#"@ == seq!['C', '#'],
        "cpp"@ == seq!['c', 'p', 'p'],
        "C++"@ == seq!['C', '+', '+'],
        "dockerfile"@ == seq!['d', 'o', 'c', 'k', 'e', 'r', 'f', 'i', 'l', 'e'],
        "Dockerfile"@ == seq!['D', 'o', 'c', 'k', 'e', 'r', 'f', 'i', 'l', 'e'],
        "javascript"@ == seq!['j', 'a', 'v', 'a', 's', 'c', 'r', 'i', 'p', 't'],
        "JavaScript"@ == seq!['J', 'a', 'v', 'a', 'S', 'c', 'r', 'i', 'p', 't'],
        "json"@ == seq!['j', 's', 'o', 'n'],
        "JSON"@ == seq!['J', 'S', 'O', 'N'],
        "markdown"@ == seq!['m', 'a', 'r', 'k', 'd', 'o', 'w', 'n'],
        "Markdown"@ == seq!['M', 'a', 'r', 'k', 'd', 'o', 'w', 'n'],
        "powershell"@ == seq!['p', 'o', 'w', 'e', 'r', 's', 'h', 'e', 'l', 'l'],
        "PowerShell"@ == seq!['P', 'o', 'w', 'e', 'r', 'S', 'h', 'e', 'l', 'l'],
        "python"@ == seq!['p', 'y', 't', 'h', 'o', 'n'],
        "Python"@ == seq!['P', 'y', 't', 'h', 'o', 'n'],
        "rust"@ == seq!['r', 'u', 's', 't'],
        "Rust"@ == seq!['R', 'u', 's', 't'],
        "sql"@ == seq!['s', 'q', 'l'],
        "SQL"@ == seq!['S', 'Q', 'L'],
        "toml"@ == seq!['t', 'o', 'm', 'l'],
        "TOML"@ == seq!['T', 'O', 'M', 'L'],
        "tsx"@ == seq!['t', 's', 'x'],
        "TSX"@ == seq!['T', 'S', 'X'],
        "typescript"@ == seq!['t', 'y', 'p', 'e', 's', 'c', 'r', 'i', 'p', 't'],
        "TypeScript"@ == seq!['T', 'y', 'p', 'e', 'S', 'c', 'r', 'i', 'p', 't'],
        "xml"@ == seq!['x', 'm', 'l'],
        "XML"@ == seq!['X', 'M', 'L'],
        "yaml"@ == seq!['y', 'a', 'm', 'l'],
        "YAML"@ == seq!['Y', 'A', 'M', 'L'],
        "html"@ == seq!['h', 't', 'm', 'l'],
        "css"@ == seq!['c', 's', 's'],
        "scss"@ == seq!['s', 'c', 's', 's'],
        "php"@ == seq!['p', 'h', 'p'],
        "ruby"@ == seq!['r', 'u', 'b', 'y'],
        "go"@ == seq!['g', 'o'],
        "diff"@ == seq!['d', 'i', 'f', 'f'],
        "lua"@ == seq!['l', 'u', 'a'],
        "c"@ == seq!['c'],
        "java"@ == seq!['j', 'a', 'v', 'a'],
        "kotlin"@ == seq!['k', 'o', 't', 'l', 'i', 'n'],
        "dart"@ == seq!['d', 'a', 'r', 't'],
        "ini"@ == seq!['i', 'n', 'i'],
        "nginx"@ == seq!['n', 'g', 'i', 'n', 'x'],
{
    reveal_strlit("bash");
    reveal_strlit("Shell");
    reveal_strlit("c-sharp");
    reveal_strlit("C#");
    reveal_strlit("cpp");
    reveal_strlit("C++");
    reveal_strlit("dockerfile");
    reveal_strlit("Dockerfile");
    reveal_strlit("javascript");
    reveal_strlit("JavaScript");
    reveal_strlit("json");
    reveal_strlit("JSON");
    reveal_strlit("markdown");
    reveal_strlit("Markdown");
    reveal_strlit("powershell");
    reveal_strlit("PowerShell");
    reveal_strlit("python");
    reveal_strlit("Python");
    reveal_strlit("rust");
    reveal_strlit("Rust");
    reveal_strlit("sql");
    reveal_strlit("SQL");
    reveal_strlit("toml");
    reveal_strlit("TOML");
    reveal_strlit("tsx");
    reveal_strlit("TSX");
    reveal_strlit("typescript");
    reveal_strlit("TypeScript");
    reveal_strlit("xml");
    reveal_strlit("XML");
    reveal_strlit("yaml");
    reveal_strlit("YAML");
    reveal_strlit("html");
    reveal_strlit("css");
    reveal_strlit("scss");
    reveal_strlit("php");
    reveal_strlit("ruby");
    reveal_strlit("go");
    reveal_strlit("diff");
    reveal_strlit("lua");
    reveal_strlit("c");
    reveal_strlit("java");
    reveal_strlit("kotlin");
    reveal_strlit("dart");
    reveal_strlit("ini");
    reveal_strlit("nginx");
}

/// The label shown for each language, as `(slug, label)` pairs; a language
/// without a label of its own is shown by its slug.
pub open spec fn language_labels() -> Seq<(Seq<char>, Seq<char>)> {
    seq![
        ("bash"@, "Shell"@),
        ("c-sharp"@, "C#"@),
        ("cpp"@, "C++"@),
        ("dockerfile"@, "Dockerfile"@),
        ("javascript"@, "JavaScript"@),
        ("json"@, "JSON"@),
        ("markdown"@, "Markdown"@),
        ("powershell"@, "PowerShell"@),
        ("python"@, "Python"@),
        ("rust"@, "Rust"@),
        ("sql"@, "SQL"@),
        ("toml"@, "TOML"@),
        ("tsx"@, "TSX"@),
        ("typescript"@, "TypeScript"@),
        ("xml"@, "XML"@),
        ("yaml"@, "YAML"@),
        ("html"@, "html"@),
        ("css"@, "css"@),
        ("scss"@, "scss"@),
        ("php"@, "php"@),
        ("ruby"@, "ruby"@),
        ("go"@, "go"@),
        ("diff"@, "diff"@),
        ("lua"@, "lua"@),
        ("c"@, "c"@),
        ("java"@, "java"@),
        ("kotlin"@, "kotlin"@),
        ("dart"@, "dart"@),
        ("ini"@, "ini"@),
        ("nginx"@, "nginx"@),
    ]
}

/// Each language is shown under its label: `python` as `Python`, `bash` as
/// `Shell` and so on, and a language without one under its slug.
pub proof fn languages_show_their_labels(k: int)
    requires
        0 <= k < language_labels().len(),
    ensures
        language_label_spec(language_labels()[k].0) == language_labels()[k].1,
{
    lemma_label_names();
    if k == 0 {
        assert(language_label_spec(language_labels()[0].0) == language_labels()[0].1);
    } else if k == 1 {
        assert(language_label_spec(language_labels()[1].0) == language_labels()[1].1);
    } else if k == 2 {
        assert(language_label_spec(language_labels()[2].0) == language_labels()[2].1);
    } else if k == 3 {
        assert(language_label_spec(language_labels()[3].0) == language_labels()[3].1);
    } else if k == 4 {
        assert(language_label_spec(language_labels()[4].0) == language_labels()[4].1);
    } else if k == 5 {
        assert(language_label_spec(language_labels()[5].0) == language_labels()[5].1);
    } else if k == 6 {
        assert(language_label_spec(language_labels()[6].0) == language_labels()[6].1);
    } else if k == 7 {
        assert(language_label_spec(language_labels()[7].0) == language_labels()[7].1);
    } else if k == 8 {
        assert(language_label_spec(language_labels()[8].0) == language_labels()[8].1);
    } else if k == 9 {
        assert(language_label_spec(language_labels()[9].0) == language_labels()[9].1);
    } else if k == 10 {
        assert(language_label_spec(language_labels()[10].0) == language_labels()[10].1);
    } else if k == 11 {
        assert(language_label_spec(language_labels()[11].0) == language_labels()[11].1);
    } else if k == 12 {
        assert(language_label_spec(language_labels()[12].0) == language_labels()[12].1);
    } else if k == 13 {
        assert(language_label_spec(language_labels()[13].0) == language_labels()[13].1);
    } else if k == 14 {
        assert(language_label_spec(language_labels()[14].0) == language_labels()[14].1);
    } else if k == 15 {
        assert(language_label_spec(language_labels()[15].0) == language_labels()[15].1);
    } else if k == 16 {
        assert(language_label_spec(language_labels()[16].0) == language_labels()[16].1);
    } else if k == 17 {
        assert(language_label_spec(language_labels()[17].0) == language_labels()[17].1);
    } else if k == 18 {
        assert(language_label_spec(language_labels()[18].0) == language_labels()[18].1);
    } else if k == 19 {
        assert(language_label_spec(language_labels()[19].0) == language_labels()[19].1);
    } else if k == 20 {
        assert(language_label_spec(language_labels()[20].0) == language_labels()[20].1);
    } else if k == 21 {
        assert(language_label_spec(language_labels()[21].0) == language_labels()[21].1);
    } else if k == 22 {
        assert(language_label_spec(language_labels()[22].0) == language_labels()[22].1);
    } else if k == 23 {
        assert(language_label_spec(language_labels()[23].0) == language_labels()[23].1);
    } else if k == 24 {
        assert(language_label_spec(language_labels()[24].0) == language_labels()[24].1);
    } else if k == 25 {
        assert(language_label_spec(language_labels()[25].0) == language_labels()[25].1);
    } else if k == 26 {
        assert(language_label_spec(language_labels()[26].0) == language_labels()[26].1);
    } else if k == 27 {
        assert(language_label_spec(language_labels()[27].0) == language_labels()[27].1);
    } else if k == 28 {
        assert(language_label_spec(language_labels()[28].0) == language_labels()[28].1);
    } else if k == 29 {
        assert(language_label_spec(language_labels()[29].0) == language_labels()[29].1);
    }
}

} // verus!
