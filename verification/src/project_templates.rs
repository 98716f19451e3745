//! The starters a new project can be created from: the catalog, each
//! starter's command, and the search over it.
use vstd::prelude::*;
use crate::text::{chars_of, contains_seq, lower_seq, seq_contains, to_ascii_lowercase, trim, trimmed};

verus! {

/// A starter a new project can be created from.
#[derive(Clone, Copy, Debug, PartialEq, Eq, Structural)]
pub enum ProjectTemplate {
    Empty,
    Rust,
    Python,
    Go,
    Deno,
    Bun,
    Nodejs,
    DotnetConsole,
    Dioxus,
    Blazor,
    Vite,
    VitePlus,
    Cloudflare,
    Shadcn,
    React,
    Vue,
    SvelteKit,
    SolidStart,
    Nextjs,
    Astro,
    Nuxt,
    TanstackStart,
    ReactRouter,
    Hono,
    Fresh,
    AspNetApi,
    Aspire,
    Django,
    Expo,
    Tauri,
}

impl Default for ProjectTemplate {
    fn default() -> (r: Self)
        ensures
            r == ProjectTemplate::Empty,
    {
        ProjectTemplate::Empty
    }
}

/// The picture a starter is shown with.
#[derive(Clone, Copy, Debug, PartialEq, Eq, Structural)]
pub enum TemplateIcon {
    Empty,
    Rust,
    Python,
    Go,
    Deno,
    Bun,
    Nodejs,
    Dotnet,
    Dioxus,
    Vite,
    VitePlus,
    Cloudflare,
    Shadcn,
    React,
    Vue,
    Svelte,
    Solid,
    Nextjs,
    Astro,
    Nuxt,
    Tanstack,
    ReactRouter,
    Hono,
    Fresh,
    Django,
    Expo,
    Tauri,
}

/// The group a starter is listed under.
#[derive(Clone, Copy, Debug, PartialEq, Eq, Structural)]
pub enum TemplateCategory {
    Basics,
    Web,
    Backend,
    Native,
}

pub open spec fn category_label(c: TemplateCategory) -> Seq<char> {
    match c {
        TemplateCategory::Basics => "Basics"@,
        TemplateCategory::Web => "Web"@,
        TemplateCategory::Backend => "Backend"@,
        TemplateCategory::Native => "Native"@,
    }
}

impl TemplateCategory {
    pub fn label(self) -> (r: &'static str)
        ensures
            r@ == category_label(self),
    {
        match self {
            TemplateCategory::Basics => "Basics",
            TemplateCategory::Web => "Web",
            TemplateCategory::Backend => "Backend",
            TemplateCategory::Native => "Native",
        }
    }
}

/// The categories in the order they are listed.
pub fn categories() -> (r: Vec<TemplateCategory>)
    ensures
        r@ == seq![TemplateCategory::Basics, TemplateCategory::Web, TemplateCategory::Backend, TemplateCategory::Native],
{
    let r = vec![TemplateCategory::Basics, TemplateCategory::Web, TemplateCategory::Backend, TemplateCategory::Native];
    proof {
        assert(r@ =~= seq![TemplateCategory::Basics, TemplateCategory::Web, TemplateCategory::Backend, TemplateCategory::Native]);
    }
    r
}

/// A starter: what it is called, what it makes, how it is shown and
/// grouped, and the command that scaffolds it (none for an empty folder).
#[derive(Clone, Copy, Debug, PartialEq, Eq)]
pub struct TemplateDefinition {
    pub template: ProjectTemplate,
    pub label: &'static str,
    pub description: &'static str,
    pub icon: TemplateIcon,
    pub category: TemplateCategory,
    pub command: Option<&'static str>,
}

pub ghost struct TemplateView {
    pub template: ProjectTemplate,
    pub label: Seq<char>,
    pub description: Seq<char>,
    pub icon: TemplateIcon,
    pub category: TemplateCategory,
    pub command: Option<Seq<char>>,
}

pub open spec fn template_view(d: TemplateDefinition) -> TemplateView {
    TemplateView {
        template: d.template,
        label: d.label@,
        description: d.description@,
        icon: d.icon,
        category: d.category,
        command: match d.command {
            Some(c) => Some(c@),
            None => None,
        },
    }
}

/// The catalog entry of each starter.
pub open spec fn entry(t: ProjectTemplate) -> TemplateView {
    match t {
        ProjectTemplate::Empty => TemplateView {
            template: t,
            label: "Empty"@,
            description: "Just a folder"@,
            icon: TemplateIcon::Empty,
            category: TemplateCategory::Basics,
            command: None,
        },
        ProjectTemplate::Rust => TemplateView {
            template: t,
            label: "Rust"@,
            description: "Cargo binary"@,
            icon: TemplateIcon::Rust,
            category: TemplateCategory::Basics,
            command: Some("mise x rust@stable -- cargo init . && mise use -y rust@stable"@),
        },
        ProjectTemplate::Python => TemplateView {
            template: t,
            label: "Python"@,
            description: "uv package"@,
            icon: TemplateIcon::Python,
            category: TemplateCategory::Basics,
            command: Some("mise x python@latest uv@latest -- uv init . && mise use -y python@latest uv@latest"@),
        },
        ProjectTemplate::Go => TemplateView {
            template: t,
            label: "Go"@,
            description: "Go module"@,
            icon: TemplateIcon::Go,
            category: TemplateCategory::Basics,
            command: Some("mise x go@latest -- sh -lc 'go mod init \"$(basename \"$PWD\")\"' && mise use -y go@latest"@),
        },
        ProjectTemplate::Deno => TemplateView {
            template: t,
            label: "Deno"@,
            description: "Deno starter"@,
            icon: TemplateIcon::Deno,
            category: TemplateCategory::Basics,
            command: Some("mise x deno@latest -- deno init . && mise use -y deno@latest"@),
        },
        ProjectTemplate::Bun => TemplateView {
            template: t,
            label: "Bun"@,
            description: "Interactive bun init"@,
            icon: TemplateIcon::Bun,
            category: TemplateCategory::Basics,
            command: Some("mise x bun@latest -- bun init && mise use -y bun@latest"@),
        },
        ProjectTemplate::Nodejs => TemplateView {
            template: t,
            label: "Node.js"@,
            description: "Interactive npm init"@,
            icon: TemplateIcon::Nodejs,
            category: TemplateCategory::Basics,
            command: Some("mise x node@lts -- npm init && mise use -y node@lts"@),
        },
        ProjectTemplate::DotnetConsole => TemplateView {
            template: t,
            label: ".NET Console"@,
            description: "C# console app"@,
            icon: TemplateIcon::Dotnet,
            category: TemplateCategory::Basics,
            command: Some("mise x dotnet@latest -- dotnet new console --output . && mise use -y dotnet@latest"@),
        },
        ProjectTemplate::Dioxus => TemplateView {
            template: t,
            label: "Dioxus"@,
            description: "Interactive 0.7 app"@,
            icon: TemplateIcon::Dioxus,
            category: TemplateCategory::Web,
            command: Some("mise x rust@stable cargo:dioxus-cli@0.7.10 -- dx new . --vcs none && mise use -y rust@stable cargo:dioxus-cli@0.7.10"@),
        },
        ProjectTemplate::Blazor => TemplateView {
            template: t,
            label: "Blazor"@,
            description: "Blazor Web App"@,
            icon: TemplateIcon::Dotnet,
            category: TemplateCategory::Web,
            command: Some("mise x dotnet@latest -- dotnet new blazor --output . && mise use -y dotnet@latest"@),
        },
        ProjectTemplate::Vite => TemplateView {
            template: t,
            label: "Vite"@,
            description: "Interactive framework picker"@,
            icon: TemplateIcon::Vite,
            category: TemplateCategory::Web,
            command: Some("mise x node@lts -- npx --yes create-vite@latest . && mise use -y node@lts"@),
        },
        ProjectTemplate::VitePlus => TemplateView {
            template: t,
            label: "Vite+"@,
            description: "Unified toolchain picker"@,
            icon: TemplateIcon::VitePlus,
            category: TemplateCategory::Web,
            command: Some("if ! command -v vp >/dev/null 2>&1; then curl -fsSL https://vite.plus | bash; fi; export PATH=\"${VP_HOME:-$HOME/.vite-plus}/bin:$PATH\"; vp create --directory ."@),
        },
        ProjectTemplate::Cloudflare => TemplateView {
            template: t,
            label: "Cloudflare"@,
            description: "Interactive Workers app"@,
            icon: TemplateIcon::Cloudflare,
            category: TemplateCategory::Web,
            command: Some("mise x node@lts -- npm create cloudflare@latest -- . && mise use -y node@lts"@),
        },
        ProjectTemplate::Shadcn => TemplateView {
            template: t,
            label: "shadcn/ui"@,
            description: "Interactive UI starter"@,
            icon: TemplateIcon::Shadcn,
            category: TemplateCategory::Web,
            command: Some("mise x node@lts -- sh -lc 'project_name=$(basename \"$PWD\"); npx --yes shadcn@latest init --name \"$project_name\" && cp -a -- \"$project_name\"/. . && rm -rf -- \"$project_name\"' && mise use -y node@lts"@),
        },
        ProjectTemplate::React => TemplateView {
            template: t,
            label: "React"@,
            description: "Vite + TypeScript"@,
            icon: TemplateIcon::React,
            category: TemplateCategory::Web,
            command: Some("mise x node@lts -- sh -lc 'npx --yes create-vite@latest . --template react-ts && npm install' && mise use -y node@lts"@),
        },
        ProjectTemplate::Vue => TemplateView {
            template: t,
            label: "Vue"@,
            description: "Interactive create-vue"@,
            icon: TemplateIcon::Vue,
            category: TemplateCategory::Web,
            command: Some("mise x node@lts -- npx --yes create-vue@latest . && mise use -y node@lts"@),
        },
        ProjectTemplate::SvelteKit => TemplateView {
            template: t,
            label: "SvelteKit"@,
            description: "Interactive sv create"@,
            icon: TemplateIcon::Svelte,
            category: TemplateCategory::Web,
            command: Some("mise x node@lts -- npx --yes sv@latest create . && mise use -y node@lts"@),
        },
        ProjectTemplate::SolidStart => TemplateView {
            template: t,
            label: "SolidStart"@,
            description: "Interactive Solid app"@,
            icon: TemplateIcon::Solid,
            category: TemplateCategory::Web,
            command: Some("mise x node@lts -- npx --yes create-solid@latest . && mise use -y node@lts"@),
        },
        ProjectTemplate::Nextjs => TemplateView {
            template: t,
            label: "Next.js"@,
            description: "Interactive create-next-app"@,
            icon: TemplateIcon::Nextjs,
            category: TemplateCategory::Web,
            command: Some("mise x node@lts -- npx --yes create-next-app@latest . && mise use -y node@lts"@),
        },
        ProjectTemplate::Astro => TemplateView {
            template: t,
            label: "Astro"@,
            description: "Interactive create-astro"@,
            icon: TemplateIcon::Astro,
            category: TemplateCategory::Web,
            command: Some("mise x node@lts -- npx --yes create-astro@latest . && mise use -y node@lts"@),
        },
        ProjectTemplate::Nuxt => TemplateView {
            template: t,
            label: "Nuxt"@,
            description: "Interactive create-nuxt"@,
            icon: TemplateIcon::Nuxt,
            category: TemplateCategory::Web,
            command: Some("mise x node@lts -- npx --yes create-nuxt@latest . && mise use -y node@lts"@),
        },
        ProjectTemplate::TanstackStart => TemplateView {
            template: t,
            label: "TanStack Start"@,
            description: "Interactive add-on builder"@,
            icon: TemplateIcon::Tanstack,
            category: TemplateCategory::Web,
            command: Some("mise x node@lts -- npx --yes @tanstack/cli@latest create . && mise use -y node@lts"@),
        },
        ProjectTemplate::ReactRouter => TemplateView {
            template: t,
            label: "React Router"@,
            description: "Framework mode starter"@,
            icon: TemplateIcon::ReactRouter,
            category: TemplateCategory::Web,
            command: Some("mise x node@lts -- npx --yes create-react-router@latest . && mise use -y node@lts"@),
        },
        ProjectTemplate::Hono => TemplateView {
            template: t,
            label: "Hono"@,
            description: "Interactive runtime picker"@,
            icon: TemplateIcon::Hono,
            category: TemplateCategory::Web,
            command: Some("mise x node@lts -- npx --yes create-hono@latest . && mise use -y node@lts"@),
        },
        ProjectTemplate::Fresh => TemplateView {
            template: t,
            label: "Fresh"@,
            description: "Interactive Deno app"@,
            icon: TemplateIcon::Fresh,
            category: TemplateCategory::Web,
            command: Some("mise x deno@latest -- deno run -Ar jsr:@fresh/init . && mise use -y deno@latest"@),
        },
        ProjectTemplate::AspNetApi => TemplateView {
            template: t,
            label: "ASP.NET Core API"@,
            description: "Minimal Web API"@,
            icon: TemplateIcon::Dotnet,
            category: TemplateCategory::Backend,
            command: Some("mise x dotnet@latest -- dotnet new webapi --output . && mise use -y dotnet@latest"@),
        },
        ProjectTemplate::Aspire => TemplateView {
            template: t,
            label: ".NET Aspire"@,
            description: "Distributed app stack"@,
            icon: TemplateIcon::Dotnet,
            category: TemplateCategory::Backend,
            command: Some("mise x dotnet@latest aspire@latest -- sh -lc 'aspire new aspire-starter --name \"$(basename \"$PWD\")\" --output .' && mise use -y dotnet@latest aspire@latest"@),
        },
        ProjectTemplate::Django => TemplateView {
            template: t,
            label: "Django"@,
            description: "uv + Django project"@,
            icon: TemplateIcon::Django,
            category: TemplateCategory::Backend,
            command: Some("mise x python@latest uv@latest -- sh -lc 'uv init --bare . && uv add django && uv run django-admin startproject config .' && mise use -y python@latest uv@latest"@),
        },
        ProjectTemplate::Expo => TemplateView {
            template: t,
            label: "React Native"@,
            description: "Interactive Expo app"@,
            icon: TemplateIcon::Expo,
            category: TemplateCategory::Native,
            command: Some("mise x node@lts -- npx --yes create-expo-app@latest . && mise use -y node@lts"@),
        },
        ProjectTemplate::Tauri => TemplateView {
            template: t,
            label: "Tauri"@,
            description: "Interactive desktop app"@,
            icon: TemplateIcon::Tauri,
            category: TemplateCategory::Native,
            command: Some("mise x node@lts rust@stable -- npx --yes create-tauri-app@latest . && mise use -y node@lts rust@stable"@),
        },
    }
}

/// The definition of a starter.
pub fn definition(template: ProjectTemplate) -> (r: TemplateDefinition)
    ensures
        template_view(r) == entry(template),
{
    match template {
        ProjectTemplate::Empty => TemplateDefinition {
            template,
            label: "Empty",
            description: "Just a folder",
            icon: TemplateIcon::Empty,
            category: TemplateCategory::Basics,
            command: None,
        },
        ProjectTemplate::Rust => TemplateDefinition {
            template,
            label: "Rust",
            description: "Cargo binary",
            icon: TemplateIcon::Rust,
            category: TemplateCategory::Basics,
            command: Some("mise x rust@stable -- cargo init . && mise use -y rust@stable"),
        },
        ProjectTemplate::Python => TemplateDefinition {
            template,
            label: "Python",
            description: "uv package",
            icon: TemplateIcon::Python,
            category: TemplateCategory::Basics,
            command: Some("mise x python@latest uv@latest -- uv init . && mise use -y python@latest uv@latest"),
        },
        ProjectTemplate::Go => TemplateDefinition {
            template,
            label: "Go",
            description: "Go module",
            icon: TemplateIcon::Go,
            category: TemplateCategory::Basics,
            command: Some("mise x go@latest -- sh -lc 'go mod init \"$(basename \"$PWD\")\"' && mise use -y go@latest"),
        },
        ProjectTemplate::Deno => TemplateDefinition {
            template,
            label: "Deno",
            description: "Deno starter",
            icon: TemplateIcon::Deno,
            category: TemplateCategory::Basics,
            command: Some("mise x deno@latest -- deno init . && mise use -y deno@latest"),
        },
        ProjectTemplate::Bun => TemplateDefinition {
            template,
            label: "Bun",
            description: "Interactive bun init",
            icon: TemplateIcon::Bun,
            category: TemplateCategory::Basics,
            command: Some("mise x bun@latest -- bun init && mise use -y bun@latest"),
        },
        ProjectTemplate::Nodejs => TemplateDefinition {
            template,
            label: "Node.js",
            description: "Interactive npm init",
            icon: TemplateIcon::Nodejs,
            category: TemplateCategory::Basics,
            command: Some("mise x node@lts -- npm init && mise use -y node@lts"),
        },
        ProjectTemplate::DotnetConsole => TemplateDefinition {
            template,
            label: ".NET Console",
            description: "C# console app",
            icon: TemplateIcon::Dotnet,
            category: TemplateCategory::Basics,
            command: Some("mise x dotnet@latest -- dotnet new console --output . && mise use -y dotnet@latest"),
        },
        ProjectTemplate::Dioxus => TemplateDefinition {
            template,
            label: "Dioxus",
            description: "Interactive 0.7 app",
            icon: TemplateIcon::Dioxus,
            category: TemplateCategory::Web,
            command: Some("mise x rust@stable cargo:dioxus-cli@0.7.10 -- dx new . --vcs none && mise use -y rust@stable cargo:dioxus-cli@0.7.10"),
        },
        ProjectTemplate::Blazor => TemplateDefinition {
            template,
            label: "Blazor",
            description: "Blazor Web App",
            icon: TemplateIcon::Dotnet,
            category: TemplateCategory::Web,
            command: Some("mise x dotnet@latest -- dotnet new blazor --output . && mise use -y dotnet@latest"),
        },
        ProjectTemplate::Vite => TemplateDefinition {
            template,
            label: "Vite",
            description: "Interactive framework picker",
            icon: TemplateIcon::Vite,
            category: TemplateCategory::Web,
            command: Some("mise x node@lts -- npx --yes create-vite@latest . && mise use -y node@lts"),
        },
        ProjectTemplate::VitePlus => TemplateDefinition {
            template,
            label: "Vite+",
            description: "Unified toolchain picker",
            icon: TemplateIcon::VitePlus,
            category: TemplateCategory::Web,
            command: Some("if ! command -v vp >/dev/null 2>&1; then curl -fsSL https://vite.plus | bash; fi; export PATH=\"${VP_HOME:-$HOME/.vite-plus}/bin:$PATH\"; vp create --directory ."),
        },
        ProjectTemplate::Cloudflare => TemplateDefinition {
            template,
            label: "Cloudflare",
            description: "Interactive Workers app",
            icon: TemplateIcon::Cloudflare,
            category: TemplateCategory::Web,
            command: Some("mise x node@lts -- npm create cloudflare@latest -- . && mise use -y node@lts"),
        },
        ProjectTemplate::Shadcn => TemplateDefinition {
            template,
            label: "shadcn/ui",
            description: "Interactive UI starter",
            icon: TemplateIcon::Shadcn,
            category: TemplateCategory::Web,
            command: Some("mise x node@lts -- sh -lc 'project_name=$(basename \"$PWD\"); npx --yes shadcn@latest init --name \"$project_name\" && cp -a -- \"$project_name\"/. . && rm -rf -- \"$project_name\"' && mise use -y node@lts"),
        },
        ProjectTemplate::React => TemplateDefinition {
            template,
            label: "React",
            description: "Vite + TypeScript",
            icon: TemplateIcon::React,
            category: TemplateCategory::Web,
            command: Some("mise x node@lts -- sh -lc 'npx --yes create-vite@latest . --template react-ts && npm install' && mise use -y node@lts"),
        },
        ProjectTemplate::Vue => TemplateDefinition {
            template,
            label: "Vue",
            description: "Interactive create-vue",
            icon: TemplateIcon::Vue,
            category: TemplateCategory::Web,
            command: Some("mise x node@lts -- npx --yes create-vue@latest . && mise use -y node@lts"),
        },
        ProjectTemplate::SvelteKit => TemplateDefinition {
            template,
            label: "SvelteKit",
            description: "Interactive sv create",
            icon: TemplateIcon::Svelte,
            category: TemplateCategory::Web,
            command: Some("mise x node@lts -- npx --yes sv@latest create . && mise use -y node@lts"),
        },
        ProjectTemplate::SolidStart => TemplateDefinition {
            template,
            label: "SolidStart",
            description: "Interactive Solid app",
            icon: TemplateIcon::Solid,
            category: TemplateCategory::Web,
            command: Some("mise x node@lts -- npx --yes create-solid@latest . && mise use -y node@lts"),
        },
        ProjectTemplate::Nextjs => TemplateDefinition {
            template,
            label: "Next.js",
            description: "Interactive create-next-app",
            icon: TemplateIcon::Nextjs,
            category: TemplateCategory::Web,
            command: Some("mise x node@lts -- npx --yes create-next-app@latest . && mise use -y node@lts"),
        },
        ProjectTemplate::Astro => TemplateDefinition {
            template,
            label: "Astro",
            description: "Interactive create-astro",
            icon: TemplateIcon::Astro,
            category: TemplateCategory::Web,
            command: Some("mise x node@lts -- npx --yes create-astro@latest . && mise use -y node@lts"),
        },
        ProjectTemplate::Nuxt => TemplateDefinition {
            template,
            label: "Nuxt",
            description: "Interactive create-nuxt",
            icon: TemplateIcon::Nuxt,
            category: TemplateCategory::Web,
            command: Some("mise x node@lts -- npx --yes create-nuxt@latest . && mise use -y node@lts"),
        },
        ProjectTemplate::TanstackStart => TemplateDefinition {
            template,
            label: "TanStack Start",
            description: "Interactive add-on builder",
            icon: TemplateIcon::Tanstack,
            category: TemplateCategory::Web,
            command: Some("mise x node@lts -- npx --yes @tanstack/cli@latest create . && mise use -y node@lts"),
        },
        ProjectTemplate::ReactRouter => TemplateDefinition {
            template,
            label: "React Router",
            description: "Framework mode starter",
            icon: TemplateIcon::ReactRouter,
            category: TemplateCategory::Web,
            command: Some("mise x node@lts -- npx --yes create-react-router@latest . && mise use -y node@lts"),
        },
        ProjectTemplate::Hono => TemplateDefinition {
            template,
            label: "Hono",
            description: "Interactive runtime picker",
            icon: TemplateIcon::Hono,
            category: TemplateCategory::Web,
            command: Some("mise x node@lts -- npx --yes create-hono@latest . && mise use -y node@lts"),
        },
        ProjectTemplate::Fresh => TemplateDefinition {
            template,
            label: "Fresh",
            description: "Interactive Deno app",
            icon: TemplateIcon::Fresh,
            category: TemplateCategory::Web,
            command: Some("mise x deno@latest -- deno run -Ar jsr:@fresh/init . && mise use -y deno@latest"),
        },
        ProjectTemplate::AspNetApi => TemplateDefinition {
            template,
            label: "ASP.NET Core API",
            description: "Minimal Web API",
            icon: TemplateIcon::Dotnet,
            category: TemplateCategory::Backend,
            command: Some("mise x dotnet@latest -- dotnet new webapi --output . && mise use -y dotnet@latest"),
        },
        ProjectTemplate::Aspire => TemplateDefinition {
            template,
            label: ".NET Aspire",
            description: "Distributed app stack",
            icon: TemplateIcon::Dotnet,
            category: TemplateCategory::Backend,
            command: Some("mise x dotnet@latest aspire@latest -- sh -lc 'aspire new aspire-starter --name \"$(basename \"$PWD\")\" --output .' && mise use -y dotnet@latest aspire@latest"),
        },
        ProjectTemplate::Django => TemplateDefinition {
            template,
            label: "Django",
            description: "uv + Django project",
            icon: TemplateIcon::Django,
            category: TemplateCategory::Backend,
            command: Some("mise x python@latest uv@latest -- sh -lc 'uv init --bare . && uv add django && uv run django-admin startproject config .' && mise use -y python@latest uv@latest"),
        },
        ProjectTemplate::Expo => TemplateDefinition {
            template,
            label: "React Native",
            description: "Interactive Expo app",
            icon: TemplateIcon::Expo,
            category: TemplateCategory::Native,
            command: Some("mise x node@lts -- npx --yes create-expo-app@latest . && mise use -y node@lts"),
        },
        ProjectTemplate::Tauri => TemplateDefinition {
            template,
            label: "Tauri",
            description: "Interactive desktop app",
            icon: TemplateIcon::Tauri,
            category: TemplateCategory::Native,
            command: Some("mise x node@lts rust@stable -- npx --yes create-tauri-app@latest . && mise use -y node@lts rust@stable"),
        },
    }
}

/// The starters in the order the catalog lists them.
pub open spec fn catalog_order() -> Seq<ProjectTemplate> {
    seq![
        ProjectTemplate::Empty,
        ProjectTemplate::Rust,
        ProjectTemplate::Python,
        ProjectTemplate::Go,
        ProjectTemplate::Deno,
        ProjectTemplate::Bun,
        ProjectTemplate::Nodejs,
        ProjectTemplate::DotnetConsole,
        ProjectTemplate::Dioxus,
        ProjectTemplate::Blazor,
        ProjectTemplate::Vite,
        ProjectTemplate::VitePlus,
        ProjectTemplate::Cloudflare,
        ProjectTemplate::Shadcn,
        ProjectTemplate::React,
        ProjectTemplate::Vue,
        ProjectTemplate::SvelteKit,
        ProjectTemplate::SolidStart,
        ProjectTemplate::Nextjs,
        ProjectTemplate::Astro,
        ProjectTemplate::Nuxt,
        ProjectTemplate::TanstackStart,
        ProjectTemplate::ReactRouter,
        ProjectTemplate::Hono,
        ProjectTemplate::Fresh,
        ProjectTemplate::AspNetApi,
        ProjectTemplate::Aspire,
        ProjectTemplate::Django,
        ProjectTemplate::Expo,
        ProjectTemplate::Tauri,
    ]
}

/// The catalog: every starter once, in order.
pub fn templates() -> (r: Vec<TemplateDefinition>)
    ensures
        r@.len() == catalog_order().len(),
        forall|i: int| 0 <= i < r@.len() ==> template_view(#[trigger] r@[i]) == entry(catalog_order()[i]),
{
    let order = vec![
        ProjectTemplate::Empty,
        ProjectTemplate::Rust,
        ProjectTemplate::Python,
        ProjectTemplate::Go,
        ProjectTemplate::Deno,
        ProjectTemplate::Bun,
        ProjectTemplate::Nodejs,
        ProjectTemplate::DotnetConsole,
        ProjectTemplate::Dioxus,
        ProjectTemplate::Blazor,
        ProjectTemplate::Vite,
        ProjectTemplate::VitePlus,
        ProjectTemplate::Cloudflare,
        ProjectTemplate::Shadcn,
        ProjectTemplate::React,
        ProjectTemplate::Vue,
        ProjectTemplate::SvelteKit,
        ProjectTemplate::SolidStart,
        ProjectTemplate::Nextjs,
        ProjectTemplate::Astro,
        ProjectTemplate::Nuxt,
        ProjectTemplate::TanstackStart,
        ProjectTemplate::ReactRouter,
        ProjectTemplate::Hono,
        ProjectTemplate::Fresh,
        ProjectTemplate::AspNetApi,
        ProjectTemplate::Aspire,
        ProjectTemplate::Django,
        ProjectTemplate::Expo,
        ProjectTemplate::Tauri,
    ];
    proof {
        assert(order@ =~= catalog_order());
    }
    let mut r: Vec<TemplateDefinition> = Vec::new();
    let mut i: usize = 0;
    while i < order.len()
        invariant
            i <= order@.len(),
            order@ == catalog_order(),
            r@.len() == i,
            forall|k: int| 0 <= k < i ==> template_view(#[trigger] r@[k]) == entry(catalog_order()[k]),
        decreases order@.len() - i,
    {
        r.push(definition(order[i]));
        i = i + 1;
    }
    r
}

/// Whether a starter answers a search: the query, trimmed, occurs in its
/// label, description or category, ignoring ASCII case; an empty query
/// matches every starter.
pub open spec fn matches_spec(t: TemplateView, query: Seq<char>) -> bool {
    let q = lower_seq(trim(query));
    ||| q.len() == 0
    ||| contains_seq(lower_seq(t.label), q)
    ||| contains_seq(lower_seq(t.description), q)
    ||| contains_seq(lower_seq(category_label(t.category)), q)
}

pub fn matches(template: &TemplateDefinition, query: &str) -> (r: bool)
    ensures
        r == matches_spec(template_view(*template), query@),
{
    let q = to_ascii_lowercase(&trimmed(&chars_of(query)));
    q.len() == 0 || seq_contains(&to_ascii_lowercase(&chars_of(template.label)), &q) || seq_contains(
        &to_ascii_lowercase(&chars_of(template.description)),
        &q,
    ) || seq_contains(&to_ascii_lowercase(&chars_of(template.category.label())), &q)
}

/// Whether some starter of `category` answers the search.
pub fn category_has_matches(category: TemplateCategory, query: &str) -> (r: bool)
    ensures
        r == exists|i: int| 0 <= i < catalog_order().len() && #[trigger] entry(catalog_order()[i]).category == category
            && matches_spec(entry(catalog_order()[i]), query@),
{
    let all = templates();
    let mut i: usize = 0;
    while i < all.len()
        invariant
            i <= all@.len(),
            all@.len() == catalog_order().len(),
            forall|k: int| 0 <= k < all@.len() ==> template_view(#[trigger] all@[k]) == entry(catalog_order()[k]),
            forall|k: int| 0 <= k < i ==> !(#[trigger] entry(catalog_order()[k]).category == category && matches_spec(
                entry(catalog_order()[k]),
                query@,
            )),
        decreases all@.len() - i,
    {
        proof {
            assert(template_view(all@[i as int]) == entry(catalog_order()[i as int]));
        }
        if all[i].category == category && matches(&all[i], query) {
            return true;
        }
        i = i + 1;
    }
    false
}

/// Every starter appears in the catalog exactly once.
pub proof fn catalog_lists_every_starter_once(t: ProjectTemplate)
    ensures
        exists|i: int| 0 <= i < catalog_order().len() && catalog_order()[i] == t,
        forall|i: int, j: int| 0 <= i < j < catalog_order().len() ==> catalog_order()[i] != catalog_order()[j],
{
    let o = catalog_order();
    assert(o.len() == 30);
    match t {
        ProjectTemplate::Empty => assert(o[0] == t),
        ProjectTemplate::Rust => assert(o[1] == t),
        ProjectTemplate::Python => assert(o[2] == t),
        ProjectTemplate::Go => assert(o[3] == t),
        ProjectTemplate::Deno => assert(o[4] == t),
        ProjectTemplate::Bun => assert(o[5] == t),
        ProjectTemplate::Nodejs => assert(o[6] == t),
        ProjectTemplate::DotnetConsole => assert(o[7] == t),
        ProjectTemplate::Dioxus => assert(o[8] == t),
        ProjectTemplate::Blazor => assert(o[9] == t),
        ProjectTemplate::Vite => assert(o[10] == t),
        ProjectTemplate::VitePlus => assert(o[11] == t),
        ProjectTemplate::Cloudflare => assert(o[12] == t),
        ProjectTemplate::Shadcn => assert(o[13] == t),
        ProjectTemplate::React => assert(o[14] == t),
        ProjectTemplate::Vue => assert(o[15] == t),
        ProjectTemplate::SvelteKit => assert(o[16] == t),
        ProjectTemplate::SolidStart => assert(o[17] == t),
        ProjectTemplate::Nextjs => assert(o[18] == t),
        ProjectTemplate::Astro => assert(o[19] == t),
        ProjectTemplate::Nuxt => assert(o[20] == t),
        ProjectTemplate::TanstackStart => assert(o[21] == t),
        ProjectTemplate::ReactRouter => assert(o[22] == t),
        ProjectTemplate::Hono => assert(o[23] == t),
        ProjectTemplate::Fresh => assert(o[24] == t),
        ProjectTemplate::AspNetApi => assert(o[25] == t),
        ProjectTemplate::Aspire => assert(o[26] == t),
        ProjectTemplate::Django => assert(o[27] == t),
        ProjectTemplate::Expo => assert(o[28] == t),
        ProjectTemplate::Tauri => assert(o[29] == t),
    }
}

} // verus!
