//! Render driver, key resolver and chain engine tests, driven by
//! in-memory capability implementations.

use slumber::collection::{
    Chain, ChainOutputTrim, ChainRequestSection, ChainRequestTrigger, ChainSource, Collection,
    Profile, Recipe,
};
use slumber::error::TriggeredRequestError;
use slumber::ident::Identifier;
use slumber::json::ContentType;
use slumber::render::{
    Effects, HttpSender, Prompt, Prompter, TemplateChunk, TemplateContext,
};
use slumber::selector::Selector;
use slumber::store::{Exchange, Response, Store};
use slumber::template::Template;

fn chars(s: &str) -> Vec<char> {
    s.chars().collect()
}

fn ident(s: &str) -> Identifier {
    Identifier::parse(&chars(s)).unwrap()
}

fn tpl(s: &str) -> Template {
    Template::parse(s).unwrap()
}

/// Decode the `\xHH` escapes a shell's `echo -e` would expand.
fn unescape_hex(s: &str) -> Vec<u8> {
    let bytes = s.as_bytes();
    let mut out = Vec::new();
    let mut i = 0;
    while i < bytes.len() {
        if bytes[i] == b'\\' && i + 3 < bytes.len() && bytes[i + 1] == b'x' {
            let hex = std::str::from_utf8(&bytes[i + 2..i + 4]).unwrap();
            out.push(u8::from_str_radix(hex, 16).unwrap());
            i += 4;
        } else {
            out.push(bytes[i]);
            i += 1;
        }
    }
    out
}

/// In-memory command, file, environment and clock effects: `echo`
/// prints its arguments, `tail` passes stdin through, `head` of the
/// random device yields non-UTF-8 bytes.
struct FakeWorld {
    files: Vec<(String, Vec<u8>)>,
    env: Vec<(String, String)>,
    now: u64,
}

impl FakeWorld {
    fn empty() -> Self {
        FakeWorld { files: Vec::new(), env: Vec::new(), now: 1000 }
    }
}

impl Effects for FakeWorld {
    fn run_command(&mut self, command: &Vec<String>, stdin: &Option<Vec<u8>>) -> Result<
        Vec<u8>,
        String,
    > {
        let program = command[0].as_str();
        if program == "echo" {
            let mut expand = false;
            let mut words: Vec<&str> = Vec::new();
            for arg in command[1..].iter() {
                match arg.as_str() {
                    "-n" => {},
                    "-e" => expand = true,
                    w => words.push(w),
                }
            }
            let joined = words.join(" ");
            if expand {
                Ok(unescape_hex(&joined))
            } else {
                Ok(joined.into_bytes())
            }
        } else if program == "tail" {
            Ok(stdin.clone().unwrap_or_default())
        } else if program == "head" {
            Ok(vec![0xc3, 0x28])
        } else {
            Err("No such file or directory (os error 2)".to_string())
        }
    }

    fn read_file(&mut self, path: &String) -> Result<Vec<u8>, String> {
        for (name, data) in &self.files {
            if name == path {
                return Ok(data.clone());
            }
        }
        Err("No such file or directory (os error 2)".to_string())
    }

    fn env_var(&mut self, name: &String) -> Result<Option<String>, String> {
        for (k, v) in &self.env {
            if k == name {
                return Ok(Some(v.clone()));
            }
        }
        Ok(None)
    }

    fn now(&mut self) -> u64 {
        self.now
    }
}

/// A prompter with one pre-seeded answer.
struct FakePrompter {
    answer: Option<String>,
}

impl Prompter for FakePrompter {
    fn prompt(&mut self, _prompt: Prompt) -> Option<String> {
        self.answer.clone()
    }
}

/// An HTTP engine that returns one canned response and counts sends.
struct FakeHttp {
    body: Vec<u8>,
    calls: usize,
}

impl HttpSender for FakeHttp {
    fn send(&mut self, recipe_id: &Identifier, _url: &String) -> Result<
        Exchange,
        TriggeredRequestError,
    > {
        self.calls += 1;
        Ok(Exchange {
            recipe_id: recipe_id.clone(),
            response: Response { status: 200, headers: Vec::new(), body: self.body.clone() },
            end_time: 2000,
        })
    }
}

type Ctx = TemplateContext<FakeWorld, FakePrompter, FakeHttp>;

fn empty_context() -> Ctx {
    TemplateContext {
        collection: Collection::new(),
        selected_profile: None,
        overrides: Vec::new(),
        store: Store::new(),
        effects: FakeWorld::empty(),
        prompter: FakePrompter { answer: None },
        http: None,
        recursion_count: 0,
    }
}

fn profile_context(data: Vec<(&str, &str)>) -> Ctx {
    let mut ctx = empty_context();
    let fields = data.into_iter().map(|(k, v)| (ident(k), tpl(v))).collect();
    ctx.collection.profiles.push(Profile { id: ident("profile1"), data: fields });
    ctx.selected_profile = Some(ident("profile1"));
    ctx
}

fn plain_chain(id: &str, source: ChainSource) -> Chain {
    Chain {
        id: ident(id),
        source,
        sensitive: false,
        selector: None,
        content_type: None,
        trim: ChainOutputTrim::Off,
    }
}

fn command_source(words: &[&str]) -> ChainSource {
    ChainSource::Command {
        command: words.iter().map(|w| Template::raw(w.to_string())).collect(),
        stdin: None,
    }
}

fn render(template: &str, ctx: &mut Ctx) -> Result<String, String> {
    ctx.recursion_count = 0;
    tpl(template).render_string(ctx).map_err(|e| e.message())
}

fn assert_err_contains(result: Result<String, String>, expected: &str) {
    match result {
        Ok(v) => panic!("expected an error, got {v:?}"),
        Err(msg) => assert!(msg.contains(expected), "error {msg:?} lacks {expected:?}"),
    }
}

#[test]
fn test_override() {
    let mut ctx = profile_context(vec![("field1", "field")]);
    ctx.overrides = vec![
        ("field1".to_string(), "override".to_string()),
        ("chains.chain1".to_string(), "override".to_string()),
        ("env.ENV1".to_string(), "override".to_string()),
        ("override1".to_string(), "override".to_string()),
    ];
    ctx.collection.chains.push(plain_chain("chain1", command_source(&["echo", "chain"])));

    assert_eq!(render("{{field1}}", &mut ctx).unwrap(), "override");
    assert_eq!(render("{{chains.chain1}}", &mut ctx).unwrap(), "override");
    assert_eq!(render("{{env.ENV1}}", &mut ctx).unwrap(), "override");
    assert_eq!(render("{{override1}}", &mut ctx).unwrap(), "override");
}

#[test]
fn test_field() {
    let mut ctx = profile_context(vec![
        ("user_id", "1"),
        ("group_id", "3"),
        ("recursive", "user id: {{user_id}}"),
    ]);

    assert_eq!(render("", &mut ctx).unwrap(), "");
    assert_eq!(render("plain", &mut ctx).unwrap(), "plain");
    assert_eq!(render("{{recursive}}", &mut ctx).unwrap(), "user id: 1");
    assert_eq!(
        render("start {{user_id}} \u{1f9e1}\u{1f49b} {{group_id}} end", &mut ctx).unwrap(),
        "start 1 \u{1f9e1}\u{1f49b} 3 end"
    );
}

#[test]
fn test_field_error() {
    let mut ctx = profile_context(vec![
        ("nested", "{{onion_id}}"),
        ("recursive", "{{recursive}}"),
    ]);
    assert_err_contains(render("{{onion_id}}", &mut ctx), "Unknown field `onion_id`");
    assert_err_contains(
        render("{{nested}}", &mut ctx),
        "Rendering nested template for field `nested`: Unknown field `onion_id`"
    );
    assert_err_contains(render("{{recursive}}", &mut ctx), "Template recursion limit reached");
}

#[test]
fn test_field_error_no_profile() {
    let mut ctx = empty_context();
    assert_err_contains(render("{{user_id}}", &mut ctx), "No profile selected");
}

#[test]
fn test_field_error_unknown_profile() {
    let mut ctx = empty_context();
    ctx.selected_profile = Some(ident("ghost"));
    assert_err_contains(render("{{user_id}}", &mut ctx), "Unknown profile `ghost`");
}

fn request_context(
    selector: Option<&str>,
    section: ChainRequestSection,
    body: &str,
    content_type: Option<ContentType>,
) -> Ctx {
    let mut ctx = empty_context();
    let recipe_id = ident("recipe1");
    ctx.collection.recipes.push(Recipe { id: recipe_id.clone(), url: tpl("fixed") });
    ctx.store.insert_exchange(Exchange {
        recipe_id: recipe_id.clone(),
        response: Response {
            status: 200,
            headers: vec![("Token".to_string(), b"Secret Value".to_vec())],
            body: body.as_bytes().to_vec(),
        },
        end_time: 900,
    });
    ctx.collection.chains.push(Chain {
        id: ident("chain1"),
        source: ChainSource::Request {
            recipe: recipe_id,
            trigger: ChainRequestTrigger::Never,
            section,
        },
        sensitive: false,
        selector: selector.map(|s| Selector::parse(s).unwrap()),
        content_type,
        trim: ChainOutputTrim::Off,
    });
    ctx
}

#[test]
fn test_chain_request() {
    let body =
        r#"{"array":[1,2],"bool":false,"number":6,"object":{"a":1},"string":"Hello World!"}"#;
    let cases: Vec<(Option<&str>, ChainRequestSection, &str)> = vec![
        (None, ChainRequestSection::Body, body),
        (Some("$.string"), ChainRequestSection::Body, "Hello World!"),
        (Some("$.number"), ChainRequestSection::Body, "6"),
        (Some("$.bool"), ChainRequestSection::Body, "false"),
        (Some("$.array"), ChainRequestSection::Body, "[1,2]"),
        (Some("$.object"), ChainRequestSection::Body, "{\"a\":1}"),
        (None, ChainRequestSection::Header("Token".to_string()), "Secret Value"),
    ];
    for (selector, section, expected) in cases {
        let mut ctx = request_context(selector, section, body, Some(ContentType::Json));
        assert_eq!(render("{{chains.chain1}}", &mut ctx).unwrap(), expected);
    }
}

#[test]
fn test_chain_request_error() {
    // a chain that is not in the collection at all
    let mut ctx = empty_context();
    ctx.collection.chains.push(plain_chain("unknown", command_source(&["echo"])));
    assert_err_contains(render("{{chains.chain1}}", &mut ctx), "Unknown chain");

    // the chain names a recipe that is not in the collection
    let mut ctx = empty_context();
    ctx.collection.chains.push(plain_chain(
        "chain1",
        ChainSource::Request {
            recipe: ident("unknown"),
            trigger: ChainRequestTrigger::Never,
            section: ChainRequestSection::Body,
        },
    ));
    assert_err_contains(render("{{chains.chain1}}", &mut ctx), "Unknown request recipe");

    // the recipe exists but nothing is stored
    let mut ctx = empty_context();
    ctx.collection.recipes.push(Recipe { id: ident("recipe1"), url: tpl("fixed") });
    ctx.collection.chains.push(plain_chain(
        "chain1",
        ChainSource::Request {
            recipe: ident("recipe1"),
            trigger: ChainRequestTrigger::Never,
            section: ChainRequestSection::Body,
        },
    ));
    assert_err_contains(render("{{chains.chain1}}", &mut ctx), "No response available");

    // sending is not allowed without an engine
    let mut ctx = empty_context();
    ctx.collection.recipes.push(Recipe { id: ident("recipe1"), url: tpl("fixed") });
    ctx.collection.chains.push(plain_chain(
        "chain1",
        ChainSource::Request {
            recipe: ident("recipe1"),
            trigger: ChainRequestTrigger::Always,
            section: ChainRequestSection::Body,
        },
    ));
    assert_err_contains(
        render("{{chains.chain1}}", &mut ctx),
        "Triggered request execution not allowed in this context"
    );

    // a selector without any content type hint
    let mut ctx = request_context(Some("$.message"), ChainRequestSection::Body, "not json!", None);
    assert_err_contains(render("{{chains.chain1}}", &mut ctx), "content type not provided");

    // a selector over a body that is not JSON
    let mut ctx = request_context(
        Some("$.message"),
        ChainRequestSection::Body,
        "not json!",
        Some(ContentType::Json),
    );
    assert_err_contains(render("{{chains.chain1}}", &mut ctx), "Parsing response");

    // a selector with several matches
    let mut ctx = request_context(
        Some("$.*"),
        ChainRequestSection::Body,
        r#"{"a":1,"b":2}"#,
        Some(ContentType::Json),
    );
    assert_err_contains(render("{{chains.chain1}}", &mut ctx), "Expected exactly one result");

    // a header that the response lacks
    let mut ctx = request_context(
        None,
        ChainRequestSection::Header("Missing".to_string()),
        "body",
        None,
    );
    assert_err_contains(render("{{chains.chain1}}", &mut ctx), "Header `Missing` not in response");
}

#[test]
fn test_triggered_request() {
    let cases: Vec<(ChainRequestTrigger, Option<u64>)> = vec![
        (ChainRequestTrigger::NoHistory, None),
        (ChainRequestTrigger::Expire(0), None),
        (ChainRequestTrigger::Expire(60), Some(900)),
        (ChainRequestTrigger::Always, None),
        (ChainRequestTrigger::Always, Some(900)),
    ];
    for (trigger, stored_end_time) in cases {
        let mut ctx = empty_context();
        ctx.effects.now = 1000;
        let recipe_id = ident("recipe1");
        ctx.collection.recipes.push(Recipe { id: recipe_id.clone(), url: tpl("fixed") });
        if let Some(end_time) = stored_end_time {
            ctx.store.insert_exchange(Exchange {
                recipe_id: recipe_id.clone(),
                response: Response { status: 200, headers: Vec::new(), body: b"stale".to_vec() },
                end_time,
            });
        }
        ctx.collection.chains.push(plain_chain(
            "chain1",
            ChainSource::Request {
                recipe: recipe_id,
                trigger,
                section: ChainRequestSection::Body,
            },
        ));
        ctx.http = Some(FakeHttp { body: b"hello!".to_vec(), calls: 0 });
        assert_eq!(render("{{chains.chain1}}", &mut ctx).unwrap(), "hello!");
        assert_eq!(ctx.http.as_ref().unwrap().calls, 1, "trigger should have sent");
    }
}

#[test]
fn test_reused_request_is_not_sent() {
    let mut ctx = empty_context();
    ctx.effects.now = 1000;
    let recipe_id = ident("recipe1");
    ctx.collection.recipes.push(Recipe { id: recipe_id.clone(), url: tpl("fixed") });
    ctx.store.insert_exchange(Exchange {
        recipe_id: recipe_id.clone(),
        response: Response { status: 200, headers: Vec::new(), body: b"stored".to_vec() },
        end_time: 990,
    });
    ctx.collection.chains.push(plain_chain(
        "chain1",
        ChainSource::Request {
            recipe: recipe_id,
            trigger: ChainRequestTrigger::Expire(60),
            section: ChainRequestSection::Body,
        },
    ));
    ctx.http = Some(FakeHttp { body: b"fresh".to_vec(), calls: 0 });
    assert_eq!(render("{{chains.chain1}}", &mut ctx).unwrap(), "stored");
    assert_eq!(ctx.http.as_ref().unwrap().calls, 0);
}

#[test]
fn test_chain_command() {
    let cases: Vec<(&[&str], Option<&str>, &str)> = vec![
        (&["tail"], Some("hello!"), "hello!"),
        (&["echo", "-n", "hello!"], None, "hello!"),
    ];
    for (command, stdin, expected) in cases {
        let mut ctx = empty_context();
        let source = ChainSource::Command {
            command: command.iter().map(|w| Template::raw(w.to_string())).collect(),
            stdin: stdin.map(|s| Template::raw(s.to_string())),
        };
        ctx.collection.chains.push(plain_chain("chain1", source));
        assert_eq!(render("{{chains.chain1}}", &mut ctx).unwrap(), expected);
    }
}

#[test]
fn test_chain_output_trim() {
    let cases: Vec<(ChainOutputTrim, &str)> = vec![
        (ChainOutputTrim::Off, "   hello!   "),
        (ChainOutputTrim::Start, "hello!   "),
        (ChainOutputTrim::End, "   hello!"),
        (ChainOutputTrim::Both, "hello!"),
    ];
    for (trim, expected) in cases {
        let mut ctx = empty_context();
        let mut chain = plain_chain("chain1", command_source(&["echo", "-n", "   hello!   "]));
        chain.trim = trim;
        ctx.collection.chains.push(chain);
        assert_eq!(render("{{chains.chain1}}", &mut ctx).unwrap(), expected);
    }
}

#[test]
fn test_chain_command_error() {
    // an empty command list
    let mut ctx = empty_context();
    ctx.collection.chains.push(plain_chain("chain1", command_source(&[])));
    assert_err_contains(render("{{chains.chain1}}", &mut ctx), "No command given");

    // a program that cannot be spawned
    let mut ctx = empty_context();
    ctx.collection.chains.push(plain_chain(
        "chain1",
        command_source(&["totally not a program"]),
    ));
    assert_err_contains(render("{{chains.chain1}}", &mut ctx), "No such file or directory");

    // binary output flattened to a string
    let mut ctx = empty_context();
    ctx.collection.chains.push(plain_chain("chain1", command_source(&["head", "/dev/random"])));
    assert_err_contains(render("{{chains.chain1}}", &mut ctx), "invalid utf-8 sequence");

    // an error in the stdin template
    let mut ctx = empty_context();
    ctx.collection.chains.push(plain_chain(
        "chain1",
        ChainSource::Command {
            command: vec![Template::raw("tail".to_string())],
            stdin: Some(tpl("{{chains.stdin}}")),
        },
    ));
    assert_err_contains(
        render("{{chains.chain1}}", &mut ctx),
        "Resolving chain `chain1`: Rendering nested template for field `stdin`: \
         Resolving chain `stdin`: Unknown chain: stdin"
    );
}

#[test]
fn test_chain_environment() {
    let cases: Vec<(Option<&str>, &str)> = vec![(Some("test!"), "test!"), (None, "")];
    for (env_value, expected) in cases {
        let mut ctx = empty_context();
        if let Some(v) = env_value {
            ctx.effects.env.push(("TEST".to_string(), v.to_string()));
        }
        ctx.collection.chains.push(plain_chain(
            "chain1",
            ChainSource::Environment { variable: Template::raw("TEST".to_string()) },
        ));
        assert_eq!(render("{{chains.chain1}}", &mut ctx).unwrap(), expected);
    }
}

#[test]
fn test_chain_file() {
    let mut ctx = empty_context();
    ctx.effects.files.push(("stuff.txt".to_string(), b"hello!".to_vec()));
    ctx.collection.chains.push(plain_chain(
        "chain1",
        ChainSource::File { path: Template::raw("stuff.txt".to_string()) },
    ));
    assert_eq!(render("{{chains.chain1}}", &mut ctx).unwrap(), "hello!");
}

#[test]
fn test_chain_file_error() {
    let mut ctx = empty_context();
    ctx.collection.chains.push(plain_chain(
        "chain1",
        ChainSource::File { path: Template::raw("not-real".to_string()) },
    ));
    assert_err_contains(render("{{chains.chain1}}", &mut ctx), "Reading file `not-real`");
}

#[test]
fn test_chain_prompt() {
    let mut ctx = empty_context();
    ctx.collection.chains.push(plain_chain(
        "chain1",
        ChainSource::Prompt {
            message: Some(Template::raw("password".to_string())),
            default: Some(Template::raw("default".to_string())),
        },
    ));

    ctx.prompter = FakePrompter { answer: Some("hello!".to_string()) };
    assert_eq!(render("{{chains.chain1}}", &mut ctx).unwrap(), "hello!");

    ctx.prompter = FakePrompter { answer: None };
    assert_eq!(render("{{chains.chain1}}", &mut ctx).unwrap(), "default");
}

#[test]
fn test_chain_prompt_error() {
    let mut ctx = empty_context();
    ctx.collection.chains.push(plain_chain(
        "chain1",
        ChainSource::Prompt {
            message: Some(Template::raw("password".to_string())),
            default: None,
        },
    ));
    ctx.prompter = FakePrompter { answer: None };
    assert_err_contains(render("{{chains.chain1}}", &mut ctx), "No response from prompt");
}

#[test]
fn test_chain_sensitive() {
    let mut ctx = empty_context();
    let mut chain = plain_chain(
        "chain1",
        ChainSource::Prompt {
            message: Some(Template::raw("password".to_string())),
            default: None,
        },
    );
    chain.sensitive = true;
    ctx.collection.chains.push(chain);
    ctx.prompter = FakePrompter { answer: Some("hello!".to_string()) };
    let chunks = tpl("{{chains.chain1}}").render_chunks(&mut ctx);
    assert_eq!(
        chunks,
        vec![TemplateChunk::Rendered { value: b"hello!".to_vec(), sensitive: true }]
    );
}

#[test]
fn test_chain_nested() {
    let mut ctx = empty_context();
    ctx.effects.files.push(("stuff.txt".to_string(), b"hello!".to_vec()));
    ctx.collection.chains.push(plain_chain(
        "file",
        ChainSource::File { path: Template::raw("stuff.txt".to_string()) },
    ));
    ctx.collection.chains.push(plain_chain(
        "command",
        ChainSource::Command {
            command: vec![
                Template::raw("echo".to_string()),
                Template::raw("-n".to_string()),
                tpl("answer: {{chains.file}}"),
            ],
            stdin: None,
        },
    ));
    assert_eq!(render("{{chains.command}}", &mut ctx).unwrap(), "answer: hello!");
}

#[test]
fn test_chain_nested_error() {
    let mut ctx = empty_context();
    ctx.collection.chains.push(plain_chain(
        "file",
        ChainSource::File { path: Template::raw("bogus.txt".to_string()) },
    ));
    ctx.collection.chains.push(plain_chain(
        "command",
        ChainSource::Command {
            command: vec![
                Template::raw("echo".to_string()),
                Template::raw("-n".to_string()),
                tpl("answer: {{chains.file}}"),
            ],
            stdin: None,
        },
    ));
    assert_err_contains(
        render("{{chains.command}}", &mut ctx),
        "Rendering nested template for field `command[2]`: \
         Resolving chain `file`: Reading file `bogus.txt`: \
         No such file or directory"
    );
}

#[test]
fn test_environment_success() {
    let cases: Vec<(Option<&str>, &str)> = vec![(Some("test!"), "test!"), (None, "")];
    for (env_value, expected) in cases {
        let mut ctx = empty_context();
        if let Some(v) = env_value {
            ctx.effects.env.push(("TEST".to_string(), v.to_string()));
        }
        assert_eq!(render("{{env.TEST}}", &mut ctx).unwrap(), expected);
    }
}

#[test]
fn test_render_binary() {
    let mut ctx = empty_context();
    ctx.collection.chains.push(plain_chain(
        "chain1",
        command_source(&["echo", "-n", "-e", r"\xc3\x28"]),
    ));
    ctx.recursion_count = 0;
    assert_eq!(
        tpl("{{chains.chain1}}").render(&mut ctx).unwrap(),
        vec![0xc3, 0x28]
    );
}

#[test]
fn test_render_invalid_utf8() {
    let mut ctx = empty_context();
    ctx.collection.chains.push(plain_chain(
        "chain1",
        command_source(&["echo", "-n", "-e", r"\xc3\x28"]),
    ));
    assert_err_contains(render("{{chains.chain1}}", &mut ctx), "invalid utf-8");
}

#[test]
fn test_render_chunks() {
    let mut ctx = profile_context(vec![("user_id", "\u{1f9e1}\u{1f49b}")]);
    let chunks = tpl("intro {{user_id}} \u{1f49a}\u{1f499}\u{1f49c} {{unknown}} outro")
        .render_chunks(&mut ctx);
    assert_eq!(chunks.len(), 5);
    assert_eq!(chunks[0], TemplateChunk::Raw("intro ".to_string()));
    assert_eq!(
        chunks[1],
        TemplateChunk::Rendered {
            value: "\u{1f9e1}\u{1f49b}".as_bytes().to_vec(),
            sensitive: false
        }
    );
    assert_eq!(chunks[2], TemplateChunk::Raw(" \u{1f49a}\u{1f499}\u{1f49c} ".to_string()));
    match &chunks[3] {
        TemplateChunk::Error(e) => {
            assert!(e.message().contains("Unknown field `unknown`"));
        },
        other => panic!("expected an error chunk, got {other:?}"),
    }
    assert_eq!(chunks[4], TemplateChunk::Raw(" outro".to_string()));
}

#[test]
fn test_render_escaped() {
    let mut ctx = profile_context(vec![("user_id", "user1")]);
    assert_eq!(
        render(r"user: {{user_id}} escaped: \{{user_id}}", &mut ctx).unwrap(),
        "user: user1 escaped: {{user_id}}"
    );
}

#[test]
fn raw_template_renders_to_itself() {
    // any string at all comes back unchanged from a raw template
    for s in ["", "plain", "{{not_a_key}}", "emoji \u{1f9e1}", r"back\slash"] {
        let mut ctx = empty_context();
        ctx.recursion_count = 0;
        let out = Template::raw(s.to_string()).render_string(&mut ctx).unwrap();
        assert_eq!(out, s);
    }
}

#[test]
fn recursion_counter_caps_total_expansions() {
    // ten sibling keys fit exactly; an eleventh key fails
    let mut ctx = profile_context(vec![("a", "x")]);
    let ten = "{{a}}".repeat(10);
    assert_eq!(render(&ten, &mut ctx).unwrap(), "x".repeat(10));
    let eleven = "{{a}}".repeat(11);
    assert_err_contains(render(&eleven, &mut ctx), "Template recursion limit reached");
}

#[test]
fn overrides_cause_no_side_effects() {
    // the chain would fail if executed; the override bypasses it
    let mut ctx = empty_context();
    ctx.collection.chains.push(plain_chain(
        "chain1",
        ChainSource::File { path: Template::raw("bogus.txt".to_string()) },
    ));
    ctx.overrides = vec![("chains.chain1".to_string(), "override".to_string())];
    assert_eq!(render("{{chains.chain1}}", &mut ctx).unwrap(), "override");
}

#[test]
fn rendering_is_repeatable() {
    // identical contexts and identical effect data give identical output
    let build = || {
        let mut ctx = profile_context(vec![("user_id", "1"), ("nested", "{{user_id}}")]);
        ctx.effects.files.push(("f.txt".to_string(), b"data".to_vec()));
        ctx.effects.env.push(("TEST".to_string(), "v".to_string()));
        ctx.collection.chains.push(plain_chain(
            "file",
            ChainSource::File { path: Template::raw("f.txt".to_string()) },
        ));
        ctx
    };
    let template = "a {{nested}} {{chains.file}} {{env.TEST}} z";
    let first = render(template, &mut build());
    let second = render(template, &mut build());
    assert_eq!(first, second);
    assert_eq!(first.unwrap(), "a 1 data v z");
}
