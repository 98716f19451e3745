//! The allowlisted language servers and the choice of servers for a language.
use vstd::prelude::*;
use crate::language::is_lit;
use crate::text::chars_of;

verus! {

/// Technologies detected in a workspace that change the choice of language server.
#[derive(Clone, Copy, Debug, PartialEq, Eq, Structural)]
pub enum WorkspaceTechnology {
    Astro,
    Deno,
    Docker,
    Graphql,
    Just,
    Nginx,
    Prisma,
    Svelte,
    Tailwind,
    Terraform,
    Vue,
}

/// An installed project package that may provide a language server locally.
#[derive(Clone, Copy, Debug, PartialEq, Eq)]
pub struct ProjectLocalLanguageServer {
    pub package: &'static str,
    pub minimum_major: Option<u64>,
}

/// An allowlisted language server that can be launched through mise.
#[derive(Clone, Copy, Debug, PartialEq, Eq)]
pub struct LanguageServerDefinition {
    pub id: &'static str,
    pub label: &'static str,
    pub language_ids: &'static [&'static str],
    pub mise_tools: &'static [&'static str],
    pub executable: &'static str,
    pub arguments: &'static [&'static str],
    /// An installed project package that may provide the executable locally.
    pub project_local: Option<ProjectLocalLanguageServer>,
    /// Supplementary servers augment, rather than replace, a primary server.
    pub supplementary: bool,
}

/// A language-server definition as text.
pub ghost struct LanguageServerView {
    pub id: Seq<char>,
    pub label: Seq<char>,
    pub language_ids: Seq<Seq<char>>,
    pub mise_tools: Seq<Seq<char>>,
    pub executable: Seq<char>,
    pub arguments: Seq<Seq<char>>,
    pub project_local: Option<(Seq<char>, Option<u64>)>,
    pub supplementary: bool,
}

pub open spec fn texts(s: Seq<&'static str>) -> Seq<Seq<char>> {
    s.map_values(|t: &'static str| t@)
}

impl View for LanguageServerDefinition {
    type V = LanguageServerView;

    open spec fn view(&self) -> LanguageServerView {
        LanguageServerView {
            id: self.id@,
            label: self.label@,
            language_ids: texts(self.language_ids@),
            mise_tools: texts(self.mise_tools@),
            executable: self.executable@,
            arguments: texts(self.arguments@),
            project_local: match self.project_local {
                Some(p) => Some((p.package@, p.minimum_major)),
                None => None,
            },
            supplementary: self.supplementary,
        }
    }
}

/// The allowlisted language servers, in order of preference.
pub open spec fn language_server_table() -> Seq<LanguageServerView> {
    seq![
        LanguageServerView {
            id: "rust-analyzer"@,
            label: "rust-analyzer"@,
            language_ids: seq!["rust"@],
            mise_tools: seq!["rust-analyzer@latest"@],
            executable: "rust-analyzer"@,
            arguments: Seq::<Seq<char>>::empty(),
            project_local: None,
            supplementary: false,
        },
        LanguageServerView {
            id: "deno"@,
            label: "Deno"@,
            language_ids: seq!["javascript"@, "typescript"@, "tsx"@],
            mise_tools: seq!["deno@latest"@],
            executable: "deno"@,
            arguments: seq!["lsp"@],
            project_local: None,
            supplementary: false,
        },
        LanguageServerView {
            id: "typescript"@,
            label: "TypeScript"@,
            language_ids: seq!["javascript"@, "typescript"@, "tsx"@],
            mise_tools: seq!["npm:typescript@latest"@],
            executable: "tsc"@,
            arguments: seq!["--lsp"@, "--stdio"@],
            project_local: Some(("typescript"@, Some(7u64))),
            supplementary: false,
        },
        LanguageServerView {
            id: "pyright"@,
            label: "Pyright"@,
            language_ids: seq!["python"@],
            mise_tools: seq!["npm:pyright@latest"@],
            executable: "pyright-langserver"@,
            arguments: seq!["--stdio"@],
            project_local: Some(("pyright"@, None)),
            supplementary: false,
        },
        LanguageServerView {
            id: "gopls"@,
            label: "gopls"@,
            language_ids: seq!["go"@],
            mise_tools: seq!["go@latest"@, "go:golang.org/x/tools/gopls@latest"@],
            executable: "gopls"@,
            arguments: Seq::<Seq<char>>::empty(),
            project_local: None,
            supplementary: false,
        },
        LanguageServerView {
            id: "vscode-html-language-server"@,
            label: "HTML Language Server"@,
            language_ids: seq!["html"@],
            mise_tools: seq!["npm:vscode-langservers-extracted@latest"@],
            executable: "vscode-html-language-server"@,
            arguments: seq!["--stdio"@],
            project_local: Some(("vscode-langservers-extracted"@, None)),
            supplementary: false,
        },
        LanguageServerView {
            id: "vscode-css-language-server"@,
            label: "CSS Language Server"@,
            language_ids: seq!["css"@, "scss"@],
            mise_tools: seq!["npm:vscode-langservers-extracted@latest"@],
            executable: "vscode-css-language-server"@,
            arguments: seq!["--stdio"@],
            project_local: Some(("vscode-langservers-extracted"@, None)),
            supplementary: false,
        },
        LanguageServerView {
            id: "vscode-json-language-server"@,
            label: "JSON Language Server"@,
            language_ids: seq!["json"@],
            mise_tools: seq!["npm:vscode-langservers-extracted@latest"@],
            executable: "vscode-json-language-server"@,
            arguments: seq!["--stdio"@],
            project_local: Some(("vscode-langservers-extracted"@, None)),
            supplementary: false,
        },
        LanguageServerView {
            id: "yaml-language-server"@,
            label: "YAML Language Server"@,
            language_ids: seq!["yaml"@],
            mise_tools: seq!["npm:yaml-language-server@latest"@],
            executable: "yaml-language-server"@,
            arguments: seq!["--stdio"@],
            project_local: Some(("yaml-language-server"@, None)),
            supplementary: false,
        },
        LanguageServerView {
            id: "taplo"@,
            label: "Taplo"@,
            language_ids: seq!["toml"@],
            mise_tools: seq!["taplo@latest"@],
            executable: "taplo"@,
            arguments: seq!["lsp"@, "stdio"@],
            project_local: None,
            supplementary: false,
        },
        LanguageServerView {
            id: "bash-language-server"@,
            label: "Bash Language Server"@,
            language_ids: seq!["bash"@],
            mise_tools: seq!["npm:bash-language-server@latest"@],
            executable: "bash-language-server"@,
            arguments: seq!["start"@],
            project_local: Some(("bash-language-server"@, None)),
            supplementary: false,
        },
        LanguageServerView {
            id: "terraform-ls"@,
            label: "Terraform Language Server"@,
            language_ids: seq!["terraform"@],
            mise_tools: seq!["terraform-ls@latest"@],
            executable: "terraform-ls"@,
            arguments: seq!["serve"@],
            project_local: None,
            supplementary: false,
        },
        LanguageServerView {
            id: "intelephense"@,
            label: "Intelephense"@,
            language_ids: seq!["php"@],
            mise_tools: seq!["npm:intelephense@latest"@],
            executable: "intelephense"@,
            arguments: seq!["--stdio"@],
            project_local: Some(("intelephense"@, None)),
            supplementary: false,
        },
        LanguageServerView {
            id: "solargraph"@,
            label: "Solargraph"@,
            language_ids: seq!["ruby"@],
            mise_tools: seq!["ruby@latest"@, "gem:solargraph@latest"@],
            executable: "solargraph"@,
            arguments: seq!["stdio"@],
            project_local: None,
            supplementary: false,
        },
        LanguageServerView {
            id: "vue"@,
            label: "Vue"@,
            language_ids: seq!["vue"@],
            mise_tools: seq!["npm:@vue/language-server@latest"@],
            executable: "vue-language-server"@,
            arguments: seq!["--stdio"@],
            project_local: Some(("@vue/language-server"@, None)),
            supplementary: false,
        },
        LanguageServerView {
            id: "svelte"@,
            label: "Svelte"@,
            language_ids: seq!["svelte"@],
            mise_tools: seq!["npm:svelte-language-server@latest"@],
            executable: "svelteserver"@,
            arguments: seq!["--stdio"@],
            project_local: Some(("svelte-language-server"@, None)),
            supplementary: false,
        },
        LanguageServerView {
            id: "astro"@,
            label: "Astro"@,
            language_ids: seq!["astro"@],
            mise_tools: seq!["npm:@astrojs/language-server@latest"@],
            executable: "astro-ls"@,
            arguments: seq!["--stdio"@],
            project_local: Some(("@astrojs/language-server"@, None)),
            supplementary: false,
        },
        LanguageServerView {
            id: "tailwindcss"@,
            label: "Tailwind CSS"@,
            language_ids: seq!["html"@, "css"@, "scss"@, "javascript"@, "typescript"@, "tsx"@, "vue"@, "svelte"@, "astro"@],
            mise_tools: seq!["npm:@tailwindcss/language-server@latest"@],
            executable: "tailwindcss-language-server"@,
            arguments: seq!["--stdio"@],
            project_local: Some(("@tailwindcss/language-server"@, None)),
            supplementary: true,
        },
    ]
}

/// The allowlisted language servers, in order of preference.
fn language_servers() -> (r: Vec<LanguageServerDefinition>)
    ensures
        r@.map_values(|d: LanguageServerDefinition| d@) == language_server_table(),
{
    let mut r: Vec<LanguageServerDefinition> = Vec::new();
    let d = LanguageServerDefinition {
        id: "rust-analyzer",
        label: "rust-analyzer",
        language_ids: &["rust"],
        mise_tools: &["rust-analyzer@latest"],
        executable: "rust-analyzer",
        arguments: &[],
        project_local: None,
        supplementary: false,
    };
    proof {
        assert(texts(d.language_ids@) =~= seq!["rust"@]);
        assert(texts(d.mise_tools@) =~= seq!["rust-analyzer@latest"@]);
        assert(texts(d.arguments@) =~= Seq::<Seq<char>>::empty());
    }
    r.push(d);
    let d = LanguageServerDefinition {
        id: "deno",
        label: "Deno",
        language_ids: &["javascript", "typescript", "tsx"],
        mise_tools: &["deno@latest"],
        executable: "deno",
        arguments: &["lsp"],
        project_local: None,
        supplementary: false,
    };
    proof {
        assert(texts(d.language_ids@) =~= seq!["javascript"@, "typescript"@, "tsx"@]);
        assert(texts(d.mise_tools@) =~= seq!["deno@latest"@]);
        assert(texts(d.arguments@) =~= seq!["lsp"@]);
    }
    r.push(d);
    let d = LanguageServerDefinition {
        id: "typescript",
        label: "TypeScript",
        language_ids: &["javascript", "typescript", "tsx"],
        mise_tools: &["npm:typescript@latest"],
        executable: "tsc",
        arguments: &["--lsp", "--stdio"],
        project_local: Some(ProjectLocalLanguageServer { package: "typescript", minimum_major: Some(7) }),
        supplementary: false,
    };
    proof {
        assert(texts(d.language_ids@) =~= seq!["javascript"@, "typescript"@, "tsx"@]);
        assert(texts(d.mise_tools@) =~= seq!["npm:typescript@latest"@]);
        assert(texts(d.arguments@) =~= seq!["--lsp"@, "--stdio"@]);
    }
    r.push(d);
    let d = LanguageServerDefinition {
        id: "pyright",
        label: "Pyright",
        language_ids: &["python"],
        mise_tools: &["npm:pyright@latest"],
        executable: "pyright-langserver",
        arguments: &["--stdio"],
        project_local: Some(ProjectLocalLanguageServer { package: "pyright", minimum_major: None }),
        supplementary: false,
    };
    proof {
        assert(texts(d.language_ids@) =~= seq!["python"@]);
        assert(texts(d.mise_tools@) =~= seq!["npm:pyright@latest"@]);
        assert(texts(d.arguments@) =~= seq!["--stdio"@]);
    }
    r.push(d);
    let d = LanguageServerDefinition {
        id: "gopls",
        label: "gopls",
        language_ids: &["go"],
        mise_tools: &["go@latest", "go:golang.org/x/tools/gopls@latest"],
        executable: "gopls",
        arguments: &[],
        project_local: None,
        supplementary: false,
    };
    proof {
        assert(texts(d.language_ids@) =~= seq!["go"@]);
        assert(texts(d.mise_tools@) =~= seq!["go@latest"@, "go:golang.org/x/tools/gopls@latest"@]);
        assert(texts(d.arguments@) =~= Seq::<Seq<char>>::empty());
    }
    r.push(d);
    let d = LanguageServerDefinition {
        id: "vscode-html-language-server",
        label: "HTML Language Server",
        language_ids: &["html"],
        mise_tools: &["npm:vscode-langservers-extracted@latest"],
        executable: "vscode-html-language-server",
        arguments: &["--stdio"],
        project_local: Some(ProjectLocalLanguageServer { package: "vscode-langservers-extracted", minimum_major: None }),
        supplementary: false,
    };
    proof {
        assert(texts(d.language_ids@) =~= seq!["html"@]);
        assert(texts(d.mise_tools@) =~= seq!["npm:vscode-langservers-extracted@latest"@]);
        assert(texts(d.arguments@) =~= seq!["--stdio"@]);
    }
    r.push(d);
    let d = LanguageServerDefinition {
        id: "vscode-css-language-server",
        label: "CSS Language Server",
        language_ids: &["css", "scss"],
        mise_tools: &["npm:vscode-langservers-extracted@latest"],
        executable: "vscode-css-language-server",
        arguments: &["--stdio"],
        project_local: Some(ProjectLocalLanguageServer { package: "vscode-langservers-extracted", minimum_major: None }),
        supplementary: false,
    };
    proof {
        assert(texts(d.language_ids@) =~= seq!["css"@, "scss"@]);
        assert(texts(d.mise_tools@) =~= seq!["npm:vscode-langservers-extracted@latest"@]);
        assert(texts(d.arguments@) =~= seq!["--stdio"@]);
    }
    r.push(d);
    let d = LanguageServerDefinition {
        id: "vscode-json-language-server",
        label: "JSON Language Server",
        language_ids: &["json"],
        mise_tools: &["npm:vscode-langservers-extracted@latest"],
        executable: "vscode-json-language-server",
        arguments: &["--stdio"],
        project_local: Some(ProjectLocalLanguageServer { package: "vscode-langservers-extracted", minimum_major: None }),
        supplementary: false,
    };
    proof {
        assert(texts(d.language_ids@) =~= seq!["json"@]);
        assert(texts(d.mise_tools@) =~= seq!["npm:vscode-langservers-extracted@latest"@]);
        assert(texts(d.arguments@) =~= seq!["--stdio"@]);
    }
    r.push(d);
    let d = LanguageServerDefinition {
        id: "yaml-language-server",
        label: "YAML Language Server",
        language_ids: &["yaml"],
        mise_tools: &["npm:yaml-language-server@latest"],
        executable: "yaml-language-server",
        arguments: &["--stdio"],
        project_local: Some(ProjectLocalLanguageServer { package: "yaml-language-server", minimum_major: None }),
        supplementary: false,
    };
    proof {
        assert(texts(d.language_ids@) =~= seq!["yaml"@]);
        assert(texts(d.mise_tools@) =~= seq!["npm:yaml-language-server@latest"@]);
        assert(texts(d.arguments@) =~= seq!["--stdio"@]);
    }
    r.push(d);
    let d = LanguageServerDefinition {
        id: "taplo",
        label: "Taplo",
        language_ids: &["toml"],
        mise_tools: &["taplo@latest"],
        executable: "taplo",
        arguments: &["lsp", "stdio"],
        project_local: None,
        supplementary: false,
    };
    proof {
        assert(texts(d.language_ids@) =~= seq!["toml"@]);
        assert(texts(d.mise_tools@) =~= seq!["taplo@latest"@]);
        assert(texts(d.arguments@) =~= seq!["lsp"@, "stdio"@]);
    }
    r.push(d);
    let d = LanguageServerDefinition {
        id: "bash-language-server",
        label: "Bash Language Server",
        language_ids: &["bash"],
        mise_tools: &["npm:bash-language-server@latest"],
        executable: "bash-language-server",
        arguments: &["start"],
        project_local: Some(ProjectLocalLanguageServer { package: "bash-language-server", minimum_major: None }),
        supplementary: false,
    };
    proof {
        assert(texts(d.language_ids@) =~= seq!["bash"@]);
        assert(texts(d.mise_tools@) =~= seq!["npm:bash-language-server@latest"@]);
        assert(texts(d.arguments@) =~= seq!["start"@]);
    }
    r.push(d);
    let d = LanguageServerDefinition {
        id: "terraform-ls",
        label: "Terraform Language Server",
        language_ids: &["terraform"],
        mise_tools: &["terraform-ls@latest"],
        executable: "terraform-ls",
        arguments: &["serve"],
        project_local: None,
        supplementary: false,
    };
    proof {
        assert(texts(d.language_ids@) =~= seq!["terraform"@]);
        assert(texts(d.mise_tools@) =~= seq!["terraform-ls@latest"@]);
        assert(texts(d.arguments@) =~= seq!["serve"@]);
    }
    r.push(d);
    let d = LanguageServerDefinition {
        id: "intelephense",
        label: "Intelephense",
        language_ids: &["php"],
        mise_tools: &["npm:intelephense@latest"],
        executable: "intelephense",
        arguments: &["--stdio"],
        project_local: Some(ProjectLocalLanguageServer { package: "intelephense", minimum_major: None }),
        supplementary: false,
    };
    proof {
        assert(texts(d.language_ids@) =~= seq!["php"@]);
        assert(texts(d.mise_tools@) =~= seq!["npm:intelephense@latest"@]);
        assert(texts(d.arguments@) =~= seq!["--stdio"@]);
    }
    r.push(d);
    let d = LanguageServerDefinition {
        id: "solargraph",
        label: "Solargraph",
        language_ids: &["ruby"],
        mise_tools: &["ruby@latest", "gem:solargraph@latest"],
        executable: "solargraph",
        arguments: &["stdio"],
        project_local: None,
        supplementary: false,
    };
    proof {
        assert(texts(d.language_ids@) =~= seq!["ruby"@]);
        assert(texts(d.mise_tools@) =~= seq!["ruby@latest"@, "gem:solargraph@latest"@]);
        assert(texts(d.arguments@) =~= seq!["stdio"@]);
    }
    r.push(d);
    let d = LanguageServerDefinition {
        id: "vue",
        label: "Vue",
        language_ids: &["vue"],
        mise_tools: &["npm:@vue/language-server@latest"],
        executable: "vue-language-server",
        arguments: &["--stdio"],
        project_local: Some(ProjectLocalLanguageServer { package: "@vue/language-server", minimum_major: None }),
        supplementary: false,
    };
    proof {
        assert(texts(d.language_ids@) =~= seq!["vue"@]);
        assert(texts(d.mise_tools@) =~= seq!["npm:@vue/language-server@latest"@]);
        assert(texts(d.arguments@) =~= seq!["--stdio"@]);
    }
    r.push(d);
    let d = LanguageServerDefinition {
        id: "svelte",
        label: "Svelte",
        language_ids: &["svelte"],
        mise_tools: &["npm:svelte-language-server@latest"],
        executable: "svelteserver",
        arguments: &["--stdio"],
        project_local: Some(ProjectLocalLanguageServer { package: "svelte-language-server", minimum_major: None }),
        supplementary: false,
    };
    proof {
        assert(texts(d.language_ids@) =~= seq!["svelte"@]);
        assert(texts(d.mise_tools@) =~= seq!["npm:svelte-language-server@latest"@]);
        assert(texts(d.arguments@) =~= seq!["--stdio"@]);
    }
    r.push(d);
    let d = LanguageServerDefinition {
        id: "astro",
        label: "Astro",
        language_ids: &["astro"],
        mise_tools: &["npm:@astrojs/language-server@latest"],
        executable: "astro-ls",
        arguments: &["--stdio"],
        project_local: Some(ProjectLocalLanguageServer { package: "@astrojs/language-server", minimum_major: None }),
        supplementary: false,
    };
    proof {
        assert(texts(d.language_ids@) =~= seq!["astro"@]);
        assert(texts(d.mise_tools@) =~= seq!["npm:@astrojs/language-server@latest"@]);
        assert(texts(d.arguments@) =~= seq!["--stdio"@]);
    }
    r.push(d);
    let d = LanguageServerDefinition {
        id: "tailwindcss",
        label: "Tailwind CSS",
        language_ids: &["html", "css", "scss", "javascript", "typescript", "tsx", "vue", "svelte", "astro"],
        mise_tools: &["npm:@tailwindcss/language-server@latest"],
        executable: "tailwindcss-language-server",
        arguments: &["--stdio"],
        project_local: Some(ProjectLocalLanguageServer { package: "@tailwindcss/language-server", minimum_major: None }),
        supplementary: true,
    };
    proof {
        assert(texts(d.language_ids@) =~= seq!["html"@, "css"@, "scss"@, "javascript"@, "typescript"@, "tsx"@, "vue"@, "svelte"@, "astro"@]);
        assert(texts(d.mise_tools@) =~= seq!["npm:@tailwindcss/language-server@latest"@]);
        assert(texts(d.arguments@) =~= seq!["--stdio"@]);
    }
    r.push(d);
    proof {
        assert(r@.map_values(|d: LanguageServerDefinition| d@) =~= language_server_table());
    }
    r
}

/// The first definition in `t` with the given id.
pub open spec fn find_server(t: Seq<LanguageServerView>, id: Seq<char>) -> Option<LanguageServerView>
    decreases t.len(),
{
    if t.len() == 0 {
        None
    } else if t[0].id == id {
        Some(t[0])
    } else {
        find_server(t.drop_first(), id)
    }
}

/// The first definition in `t` that is a primary (non-Deno, non-supplementary)
/// server for the language.
pub open spec fn find_primary(t: Seq<LanguageServerView>, language_id: Seq<char>) -> Option<
    LanguageServerView,
>
    decreases t.len(),
{
    if t.len() == 0 {
        None
    } else if t[0].id != "deno"@ && !t[0].supplementary && t[0].language_ids.contains(language_id) {
        Some(t[0])
    } else {
        find_primary(t.drop_first(), language_id)
    }
}

/// The supplementary definitions in `t` for the language, in order.
pub open spec fn supplementary_for(t: Seq<LanguageServerView>, language_id: Seq<char>) -> Seq<
    LanguageServerView,
>
    decreases t.len(),
{
    if t.len() == 0 {
        Seq::empty()
    } else if t[0].supplementary && t[0].language_ids.contains(language_id) {
        seq![t[0]] + supplementary_for(t.drop_first(), language_id)
    } else {
        supplementary_for(t.drop_first(), language_id)
    }
}

pub open spec fn option_to_seq(o: Option<LanguageServerView>) -> Seq<LanguageServerView> {
    match o {
        Some(d) => seq![d],
        None => Seq::empty(),
    }
}

/// The servers to start for a language: Deno for script files of Deno
/// workspaces, else the first primary server, then the supplementary servers
/// when the workspace uses Tailwind.
pub open spec fn servers_for_language(
    language_id: Seq<char>,
    technologies: Seq<WorkspaceTechnology>,
) -> Seq<LanguageServerView> {
    let t = language_server_table();
    let script = language_id == "javascript"@ || language_id == "typescript"@ || language_id
        == "tsx"@;
    let primary = if script && technologies.contains(WorkspaceTechnology::Deno) {
        option_to_seq(find_server(t, "deno"@))
    } else {
        option_to_seq(find_primary(t, language_id))
    };
    if technologies.contains(WorkspaceTechnology::Tailwind) {
        primary + supplementary_for(t, language_id)
    } else {
        primary
    }
}

/// The allowlisted definition with the given id.
pub fn language_server_by_id(id: &str) -> (r: Option<LanguageServerDefinition>)
    ensures
        match r {
            Some(d) => find_server(language_server_table(), id@) == Some(d@),
            None => find_server(language_server_table(), id@) is None,
        },
{
    let table = language_servers();
    let ghost t = language_server_table();
    let mut i: usize = 0;
    proof {
        assert(t.skip(0) =~= t);
    }
    while i < table.len()
        invariant
            i <= table@.len(),
            t == table@.map_values(|d: LanguageServerDefinition| d@),
            t == language_server_table(),
            find_server(t, id@) == find_server(t.skip(i as int), id@),
        decreases table@.len() - i,
    {
        let d = table[i];
        proof {
            assert(t.skip(i as int)[0] == d@);
            assert(t.skip(i as int).drop_first() =~= t.skip(i + 1));
        }
        let ids = chars_of(d.id);
        if is_lit(&ids, id) {
            proof {
                assert(d@.id == id@);
                assert(t.skip(i as int).len() > 0);
                assert(find_server(t.skip(i as int), id@) == Some(d@));
            }
            return Some(d);
        }
        i = i + 1;
    }
    None
}

fn contains_text(ids: &[&'static str], language_id: &str) -> (r: bool)
    ensures
        r == texts(ids@).contains(language_id@),
{
    let mut i: usize = 0;
    while i < ids.len()
        invariant
            i <= ids@.len(),
            forall|k: int| 0 <= k < i ==> texts(ids@)[k] != language_id@,
        decreases ids@.len() - i,
    {
        let c = chars_of(ids[i]);
        if is_lit(&c, language_id) {
            proof {
                assert(texts(ids@)[i as int] == language_id@);
            }
            return true;
        }
        i = i + 1;
    }
    false
}

fn contains_technology(technologies: &[WorkspaceTechnology], t: WorkspaceTechnology) -> (r: bool)
    ensures
        r == technologies@.contains(t),
{
    let mut i: usize = 0;
    while i < technologies.len()
        invariant
            i <= technologies@.len(),
            forall|k: int| 0 <= k < i ==> technologies@[k] != t,
        decreases technologies@.len() - i,
    {
        if technologies[i] == t {
            return true;
        }
        i = i + 1;
    }
    false
}

fn find_primary_server(table: &Vec<LanguageServerDefinition>, language_id: &str) -> (r: Option<
    LanguageServerDefinition,
>)
    requires
        table@.map_values(|d: LanguageServerDefinition| d@) == language_server_table(),
    ensures
        match r {
            Some(d) => find_primary(language_server_table(), language_id@) == Some(d@),
            None => find_primary(language_server_table(), language_id@) is None,
        },
{
    let ghost t = language_server_table();
    let mut i: usize = 0;
    proof {
        assert(t.skip(0) =~= t);
    }
    while i < table.len()
        invariant
            i <= table@.len(),
            t == table@.map_values(|d: LanguageServerDefinition| d@),
            t == language_server_table(),
            find_primary(t, language_id@) == find_primary(t.skip(i as int), language_id@),
        decreases table@.len() - i,
    {
        let d = table[i];
        proof {
            assert(t.skip(i as int)[0] == d@);
            assert(t.skip(i as int).drop_first() =~= t.skip(i + 1));
        }
        let ids = chars_of(d.id);
        if !is_lit(&ids, "deno") && !d.supplementary && contains_text(d.language_ids, language_id) {
            proof {
                assert(t.skip(i as int).len() > 0);
                assert(find_primary(t.skip(i as int), language_id@) == Some(d@));
            }
            return Some(d);
        }
        i = i + 1;
    }
    None
}

/// The language servers to start for a language in a workspace with the given
/// technologies.
pub fn language_servers_for_language(
    language_id: &str,
    technologies: &[WorkspaceTechnology],
) -> (r: Vec<LanguageServerDefinition>)
    ensures
        r@.map_values(|d: LanguageServerDefinition| d@) == servers_for_language(
            language_id@,
            technologies@,
        ),
{
    let table = language_servers();
    let ghost t = language_server_table();
    let lang = chars_of(language_id);
    let mut servers: Vec<LanguageServerDefinition> = Vec::new();
    let script = is_lit(&lang, "javascript") || is_lit(&lang, "typescript") || is_lit(&lang, "tsx");
    let first = if script && contains_technology(technologies, WorkspaceTechnology::Deno) {
        language_server_by_id("deno")
    } else {
        find_primary_server(&table, language_id)
    };
    if let Some(server) = first {
        servers.push(server);
    }
    let ghost primary = servers@.map_values(|d: LanguageServerDefinition| d@);
    proof {
        let script_spec = language_id@ == "javascript"@ || language_id@ == "typescript"@
            || language_id@ == "tsx"@;
        let expected = if script_spec && technologies@.contains(WorkspaceTechnology::Deno) {
            option_to_seq(find_server(t, "deno"@))
        } else {
            option_to_seq(find_primary(t, language_id@))
        };
        assert(primary =~= expected);
    }
    if contains_technology(technologies, WorkspaceTechnology::Tailwind) {
        let mut i: usize = 0;
        proof {
            assert(t.skip(0) =~= t);
        }
        while i < table.len()
            invariant
                i <= table@.len(),
                t == table@.map_values(|d: LanguageServerDefinition| d@),
                primary + supplementary_for(t, language_id@) == servers@.map_values(
                    |d: LanguageServerDefinition| d@,
                ) + supplementary_for(t.skip(i as int), language_id@),
            decreases table@.len() - i,
        {
            let d = table[i];
            proof {
                assert(t.skip(i as int)[0] == d@);
                assert(t.skip(i as int).drop_first() =~= t.skip(i + 1));
            }
            let ghost before = servers@.map_values(|d: LanguageServerDefinition| d@);
            if d.supplementary && contains_text(d.language_ids, language_id) {
                servers.push(d);
                proof {
                    assert(servers@.map_values(|d: LanguageServerDefinition| d@) =~= before.push(d@));
                    assert(before + supplementary_for(t.skip(i as int), language_id@) =~= before.push(d@) + supplementary_for(t.skip(i + 1), language_id@));
                }
            }
            i = i + 1;
        }
        proof {
            assert(t.skip(i as int) =~= Seq::<LanguageServerView>::empty());
            assert(servers@.map_values(|d: LanguageServerDefinition| d@) + Seq::<LanguageServerView>::empty() =~= servers@.map_values(|d: LanguageServerDefinition| d@));
        }
    }
    servers
}

/// Language id of a workspace profile's language name.
pub open spec fn profile_language_spec(name: Seq<char>) -> Option<Seq<char>> {
    if name == "Rust"@ {
        Some("rust"@)
        } else if name == "JavaScript"@ {
        Some("javascript"@)
        } else if name == "TypeScript"@ {
        Some("typescript"@)
        } else if name == "Python"@ {
        Some("python"@)
        } else if name == "Go"@ {
        Some("go"@)
        } else if name == "HTML"@ {
        Some("html"@)
        } else if name == "CSS"@ {
        Some("css"@)
        } else if name == "SCSS"@ || name == "Sass"@ {
        Some("scss"@)
        } else if name == "JSON"@ {
        Some("json"@)
        } else if name == "YAML"@ {
        Some("yaml"@)
        } else if name == "TOML"@ {
        Some("toml"@)
        } else if name == "Shell"@ {
        Some("bash"@)
        } else if name == "HCL"@ || name == "Terraform"@ {
        Some("terraform"@)
        } else if name == "PHP"@ {
        Some("php"@)
        } else if name == "Ruby"@ {
        Some("ruby"@)
        } else if name == "Vue"@ {
        Some("vue"@)
        } else if name == "Svelte"@ {
        Some("svelte"@)
        } else if name == "Astro"@ {
        Some("astro"@)
    } else {
        None
    }
}

pub fn profile_language_id(name: &str) -> (r: Option<&'static str>)
    ensures
        match r {
            Some(id) => profile_language_spec(name@) == Some(id@),
            None => profile_language_spec(name@) is None,
        },
{
    let n = chars_of(name);
    if is_lit(&n, "Rust") {
        return Some("rust");
    }
    if is_lit(&n, "JavaScript") {
        return Some("javascript");
    }
    if is_lit(&n, "TypeScript") {
        return Some("typescript");
    }
    if is_lit(&n, "Python") {
        return Some("python");
    }
    if is_lit(&n, "Go") {
        return Some("go");
    }
    if is_lit(&n, "HTML") {
        return Some("html");
    }
    if is_lit(&n, "CSS") {
        return Some("css");
    }
    if is_lit(&n, "SCSS") || is_lit(&n, "Sass") {
        return Some("scss");
    }
    if is_lit(&n, "JSON") {
        return Some("json");
    }
    if is_lit(&n, "YAML") {
        return Some("yaml");
    }
    if is_lit(&n, "TOML") {
        return Some("toml");
    }
    if is_lit(&n, "Shell") {
        return Some("bash");
    }
    if is_lit(&n, "HCL") || is_lit(&n, "Terraform") {
        return Some("terraform");
    }
    if is_lit(&n, "PHP") {
        return Some("php");
    }
    if is_lit(&n, "Ruby") {
        return Some("ruby");
    }
    if is_lit(&n, "Vue") {
        return Some("vue");
    }
    if is_lit(&n, "Svelte") {
        return Some("svelte");
    }
    if is_lit(&n, "Astro") {
        return Some("astro");
    }
    None
}

proof fn lemma_primary_at(t: Seq<LanguageServerView>, language_id: Seq<char>, k: int)
    requires
        0 <= k < t.len(),
        t[k].id != "deno"@,
        !t[k].supplementary,
        t[k].language_ids.contains(language_id),
    ensures
        find_primary(t, language_id) is Some,
    decreases k,
{
    if k > 0 && !(t[0].id != "deno"@ && !t[0].supplementary && t[0].language_ids.contains(language_id)) {
        assert(t.drop_first()[k - 1] == t[k]);
        lemma_primary_at(t.drop_first(), language_id, k - 1);
    }
}

proof fn lemma_profile_languages_served()
    ensures
        find_primary(language_server_table(), "rust"@) is Some,
        find_primary(language_server_table(), "javascript"@) is Some,
        find_primary(language_server_table(), "typescript"@) is Some,
        find_primary(language_server_table(), "python"@) is Some,
        find_primary(language_server_table(), "go"@) is Some,
        find_primary(language_server_table(), "html"@) is Some,
        find_primary(language_server_table(), "css"@) is Some,
        find_primary(language_server_table(), "scss"@) is Some,
        find_primary(language_server_table(), "json"@) is Some,
        find_primary(language_server_table(), "yaml"@) is Some,
        find_primary(language_server_table(), "toml"@) is Some,
        find_primary(language_server_table(), "bash"@) is Some,
        find_primary(language_server_table(), "terraform"@) is Some,
        find_primary(language_server_table(), "php"@) is Some,
        find_primary(language_server_table(), "ruby"@) is Some,
        find_primary(language_server_table(), "vue"@) is Some,
        find_primary(language_server_table(), "svelte"@) is Some,
        find_primary(language_server_table(), "astro"@) is Some,
{
    let t = language_server_table();
    assert("deno"@.len() == 4) by {
        reveal_strlit("deno");
    }
    assert(t[0].language_ids[0] == "rust"@);
    assert(t[0].id == "rust-analyzer"@);
    assert("rust-analyzer"@.len() == 13) by {
        reveal_strlit("rust-analyzer");
    }
    lemma_primary_at(t, "rust"@, 0);
    assert(t[2].language_ids[0] == "javascript"@);
    assert(t[2].id == "typescript"@);
    assert("typescript"@.len() == 10) by {
        reveal_strlit("typescript");
    }
    lemma_primary_at(t, "javascript"@, 2);
    assert(t[2].language_ids[1] == "typescript"@);
    assert(t[2].id == "typescript"@);
    assert("typescript"@.len() == 10) by {
        reveal_strlit("typescript");
    }
    lemma_primary_at(t, "typescript"@, 2);
    assert(t[3].language_ids[0] == "python"@);
    assert(t[3].id == "pyright"@);
    assert("pyright"@.len() == 7) by {
        reveal_strlit("pyright");
    }
    lemma_primary_at(t, "python"@, 3);
    assert(t[4].language_ids[0] == "go"@);
    assert(t[4].id == "gopls"@);
    assert("gopls"@.len() == 5) by {
        reveal_strlit("gopls");
    }
    lemma_primary_at(t, "go"@, 4);
    assert(t[5].language_ids[0] == "html"@);
    assert(t[5].id == "vscode-html-language-server"@);
    assert("vscode-html-language-server"@.len() == 27) by {
        reveal_strlit("vscode-html-language-server");
    }
    lemma_primary_at(t, "html"@, 5);
    assert(t[6].language_ids[0] == "css"@);
    assert(t[6].id == "vscode-css-language-server"@);
    assert("vscode-css-language-server"@.len() == 26) by {
        reveal_strlit("vscode-css-language-server");
    }
    lemma_primary_at(t, "css"@, 6);
    assert(t[6].language_ids[1] == "scss"@);
    assert(t[6].id == "vscode-css-language-server"@);
    assert("vscode-css-language-server"@.len() == 26) by {
        reveal_strlit("vscode-css-language-server");
    }
    lemma_primary_at(t, "scss"@, 6);
    assert(t[7].language_ids[0] == "json"@);
    assert(t[7].id == "vscode-json-language-server"@);
    assert("vscode-json-language-server"@.len() == 27) by {
        reveal_strlit("vscode-json-language-server");
    }
    lemma_primary_at(t, "json"@, 7);
    assert(t[8].language_ids[0] == "yaml"@);
    assert(t[8].id == "yaml-language-server"@);
    assert("yaml-language-server"@.len() == 20) by {
        reveal_strlit("yaml-language-server");
    }
    lemma_primary_at(t, "yaml"@, 8);
    assert(t[9].language_ids[0] == "toml"@);
    assert(t[9].id == "taplo"@);
    assert("taplo"@.len() == 5) by {
        reveal_strlit("taplo");
    }
    lemma_primary_at(t, "toml"@, 9);
    assert(t[10].language_ids[0] == "bash"@);
    assert(t[10].id == "bash-language-server"@);
    assert("bash-language-server"@.len() == 20) by {
        reveal_strlit("bash-language-server");
    }
    lemma_primary_at(t, "bash"@, 10);
    assert(t[11].language_ids[0] == "terraform"@);
    assert(t[11].id == "terraform-ls"@);
    assert("terraform-ls"@.len() == 12) by {
        reveal_strlit("terraform-ls");
    }
    lemma_primary_at(t, "terraform"@, 11);
    assert(t[12].language_ids[0] == "php"@);
    assert(t[12].id == "intelephense"@);
    assert("intelephense"@.len() == 12) by {
        reveal_strlit("intelephense");
    }
    lemma_primary_at(t, "php"@, 12);
    assert(t[13].language_ids[0] == "ruby"@);
    assert(t[13].id == "solargraph"@);
    assert("solargraph"@.len() == 10) by {
        reveal_strlit("solargraph");
    }
    lemma_primary_at(t, "ruby"@, 13);
    assert(t[14].language_ids[0] == "vue"@);
    assert(t[14].id == "vue"@);
    assert("vue"@.len() == 3) by {
        reveal_strlit("vue");
    }
    lemma_primary_at(t, "vue"@, 14);
    assert(t[15].language_ids[0] == "svelte"@);
    assert(t[15].id == "svelte"@);
    assert("svelte"@.len() == 6) by {
        reveal_strlit("svelte");
    }
    lemma_primary_at(t, "svelte"@, 15);
    assert(t[16].language_ids[0] == "astro"@);
    assert(t[16].id == "astro"@);
    assert("astro"@.len() == 5) by {
        reveal_strlit("astro");
    }
    lemma_primary_at(t, "astro"@, 16);
}

/// Every language a workspace profile names has a primary language server,
/// so a profile language always brings a server to start, whatever the
/// workspace's technologies.
pub proof fn every_profile_language_has_a_server(name: Seq<char>, technologies: Seq<WorkspaceTechnology>)
    requires
        profile_language_spec(name) is Some,
    ensures
        find_primary(language_server_table(), profile_language_spec(name)->Some_0) is Some,
        servers_for_language(profile_language_spec(name)->Some_0, technologies).len() > 0,
{
    lemma_profile_languages_served();
    let t = language_server_table();
    assert(t[0].id == "rust-analyzer"@ && t[1].id == "deno"@);
    assert("rust-analyzer"@.len() != "deno"@.len()) by {
        reveal_strlit("deno");
        reveal_strlit("rust-analyzer");
    }
    assert(t.drop_first()[0] == t[1]);
    assert(find_server(t.drop_first(), "deno"@) == Some(t[1]));
}

} // verus!
