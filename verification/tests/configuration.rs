use git_manager_xml::config::{
    holds_whitespace, Config, HookAction, HookKind, Hooks, Repository, Source, Symlink, Tag,
};
use git_manager_xml::extract::{FromElement, FromValue};
use git_manager_xml::parse::element;
use git_manager_xml::parser::Parser;
use git_manager_xml::position::Position;
use git_manager_xml::remote::{remotes, Ssh};
use git_manager_xml::search::{contains, found_at, str_contains, word_end};
use git_manager_xml::text::{
    chars_equal, letter_ignoring_case, name_char, name_start, push_chars, str_equal, string_of,
    to_chars, whitespace,
};
use git_manager_xml::tree::{find_attribute, Element};

fn read<'a>(text: &'a str) -> Element<'a> {
    let mut parser = Parser::new("doc.xml", text);
    element(&mut parser).unwrap().unwrap()
}

fn here<'a>() -> Position<'a> {
    Position { path: "doc.xml", src: "text", line: 1, char: 2 }
}

#[test]
fn hook_kinds_by_name() {
    assert_eq!(HookKind::from_value("pre-receive", &here()).unwrap(), HookKind::PreReceive);
    assert_eq!(HookKind::from_value("update", &here()).unwrap(), HookKind::Update);
    assert_eq!(HookKind::from_value("post-receive", &here()).unwrap(), HookKind::PostReceive);
    let error = HookKind::from_value("Update", &here()).unwrap_err();
    assert_eq!(error.message, "expected 'pre-receive', 'update', or 'post-receive'");
    assert_eq!((error.position.line, error.position.char), (1, 2));
    assert_eq!(HookKind::PreReceive.file_name(), "pre-receive");
    assert_eq!(HookKind::Update.file_name(), "update");
    assert_eq!(HookKind::PostReceive.file_name(), "post-receive");
}

#[test]
fn symlinks_hold_a_path() {
    assert_eq!(Symlink::from_element(&read("<symlink>a/b</symlink>")).unwrap().path, "a/b");
    for (text, column) in
        [("<symlink/>", 10), ("<symlink><a/></symlink>", 9), ("<symlink>a<b/>c</symlink>", 9)]
    {
        let error = Symlink::from_element(&read(text)).unwrap_err();
        assert_eq!(error.message, "provide a path to symlink", "{text}");
        assert_eq!(error.position.char, column, "{text}");
    }
}

#[test]
fn sources_are_inline_or_files() {
    match Source::from_element(&read("<update>echo hi</update>")).unwrap() {
        Source::Inline(text) => assert_eq!(text, "echo hi"),
        Source::File(_) => panic!("expected an inline source"),
    }
    match Source::from_element(&read("<update src='hooks/update.sh'/>")).unwrap() {
        Source::File(path) => assert_eq!(path, "hooks/update.sh"),
        Source::Inline(_) => panic!("expected a file"),
    }
    match Source::from_element(&read("<update src='a'>  </update>")).unwrap() {
        Source::File(path) => assert_eq!(path, "a"),
        Source::Inline(_) => panic!("expected a file"),
    }
    for text in ["<update/>", "<update src='a'>text</update>", "<update><a/></update>", "<update>a<b/></update>"] {
        let error = Source::from_element(&read(text)).unwrap_err();
        assert_eq!(error.message, "expected file content or 'src' attribute", "{text}");
    }
    let error = Source::from_element(&read("<update src>text</update>")).unwrap_err();
    assert_eq!(error.message, "expected non-empty value for 'src'");
    assert_eq!(error.position.char, 11);
}

#[test]
fn a_copy_of_a_source_is_the_same() {
    match Source::Inline("text".to_string()).duplicate() {
        Source::Inline(text) => assert_eq!(text, "text"),
        Source::File(_) => panic!("expected an inline source"),
    }
    match Source::File("path".to_string()).duplicate() {
        Source::File(path) => assert_eq!(path, "path"),
        Source::Inline(_) => panic!("expected a file"),
    }
}

#[test]
fn hooks_from_children() {
    let hooks = Hooks::from_element(&read(
        "<repo><update>u</update><pre-receive src='p'/><update>second</update></repo>",
    ))
    .unwrap();
    assert!(matches!(hooks.pre_receive, Some(Source::File(ref path)) if path == "p"));
    assert!(matches!(hooks.update, Some(Source::Inline(ref text)) if text == "u"));
    assert!(hooks.post_receive.is_none());

    let error = Hooks::from_element(&read("<repo><post-receive/><update/></repo>")).unwrap_err();
    assert_eq!(error.message, "expected file content or 'src' attribute");
    assert_eq!(error.position.char, 30);
}

#[test]
fn hook_files_are_installed_removed_or_left() {
    let source = Some(Source::Inline("x".to_string()));
    assert!(matches!(Hooks::update_hook(&source, true), HookAction::Install(Source::Inline(ref t)) if t == "x"));
    assert!(matches!(Hooks::update_hook(&source, false), HookAction::Install(Source::Inline(ref t)) if t == "x"));
    assert!(matches!(Hooks::update_hook(&None, true), HookAction::Remove));
    assert!(matches!(Hooks::update_hook(&None, false), HookAction::Nothing));

    let hooks = Hooks { pre_receive: None, update: Some(Source::File("u.sh".to_string())), post_receive: None };
    let steps = hooks.update(true, true, false);
    assert_eq!(steps.len(), 3);
    assert_eq!(steps[0].kind, HookKind::PreReceive);
    assert!(matches!(steps[0].action, HookAction::Remove));
    assert_eq!(steps[1].kind, HookKind::Update);
    assert!(matches!(steps[1].action, HookAction::Install(Source::File(ref p)) if p == "u.sh"));
    assert_eq!(steps[2].kind, HookKind::PostReceive);
    assert!(matches!(steps[2].action, HookAction::Nothing));
}

#[test]
fn tags_are_words() {
    assert_eq!(Tag::from_element(&read("<tag>rust</tag>")).unwrap().0, "rust");
    let error = Tag::from_element(&read("<tag>two words</tag>")).unwrap_err();
    assert_eq!(error.message, "tag must not contain whitespace");
    let error = Tag::from_element(&read("<tag>trailing </tag>")).unwrap_err();
    assert_eq!(error.message, "tag must not contain whitespace");
    for (text, column) in [("<tag/>", 6), ("<tag><a/></tag>", 5), ("<tag>a<b/></tag>", 5)] {
        let error = Tag::from_element(&read(text)).unwrap_err();
        assert_eq!(error.message, "expected tag to contain text with no whitespace", "{text}");
        assert_eq!(error.position.char, column, "{text}");
    }
    assert!(holds_whitespace("a b"));
    assert!(holds_whitespace("\u{2003}"));
    assert!(!holds_whitespace("ab"));
    assert!(!holds_whitespace(""));
}

const REPOSITORY: &str = "<repo name='tool'>
  <symlink>tools/tool</symlink>
  <tag>rust</tag>
  <symlink>t</symlink>
  <tag>cli</tag>
  <post-receive>make</post-receive>
</repo>";

#[test]
fn repositories_from_elements() {
    let repository = Repository::from_element(&read(REPOSITORY)).unwrap();
    assert_eq!(repository.name, "tool");
    let paths: Vec<&str> = repository.symlinks.iter().map(|s| s.path.as_str()).collect();
    assert_eq!(paths, vec!["tools/tool", "t"]);
    assert_eq!(repository.tags, vec!["rust", "cli"]);
    assert!(repository.hooks.pre_receive.is_none());
    assert!(repository.hooks.update.is_none());
    assert!(matches!(repository.hooks.post_receive, Some(Source::Inline(ref t)) if t == "make"));
}

#[test]
fn the_first_fault_of_a_repository_is_reported() {
    let error = Repository::from_element(&read("<repo><symlink/><tag>a b</tag></repo>")).unwrap_err();
    assert_eq!(error.message, "expected 'name' attribute");
    let error = Repository::from_element(&read("<repo name><symlink/></repo>")).unwrap_err();
    assert_eq!(error.message, "expected non-empty value for 'name'");
    let error = Repository::from_element(&read("<repo name='r'><tag>a b</tag><symlink/></repo>")).unwrap_err();
    assert_eq!(error.message, "provide a path to symlink");
    let error = Repository::from_element(&read("<repo name='r'><update/><tag>a b</tag></repo>")).unwrap_err();
    assert_eq!(error.message, "tag must not contain whitespace");
    let error = Repository::from_element(&read("<repo name='r'><update/></repo>")).unwrap_err();
    assert_eq!(error.message, "expected file content or 'src' attribute");
}

fn repository(name: &str, tags: &[&str]) -> Repository {
    Repository {
        name: name.to_string(),
        symlinks: Vec::new(),
        tags: tags.iter().map(|tag| tag.to_string()).collect(),
        hooks: Hooks { pre_receive: None, update: None, post_receive: None },
    }
}

#[test]
fn search_by_tags_or_name() {
    let tool = repository("tool", &["rust", "command-line"]);
    let line = Some("tool,git+ssh://host/store/tool".to_string());
    assert_eq!(tool.smartget_filter_map("", "host/store"), line);
    assert_eq!(tool.smartget_filter_map("   ", "host/store"), line);
    assert_eq!(tool.smartget_filter_map("rust", "host/store"), line);
    assert_eq!(tool.smartget_filter_map("  line  us ", "host/store"), line);
    assert_eq!(tool.smartget_filter_map("oo", "host/store"), line);
    assert_eq!(tool.smartget_filter_map("tool", "host/store"), line);
    assert_eq!(tool.smartget_filter_map("rust tool", "host/store"), None);
    assert_eq!(tool.smartget_filter_map("rust go", "host/store"), None);
    assert_eq!(tool.smartget_filter_map("go", "host/store"), None);
    assert_eq!(tool.smartget_filter_map("tool ", "host/store"), None);
    assert_eq!(tool.smartget_filter_map("Rust", "host/store"), None);

    let spaced = repository("my tool", &[]);
    assert_eq!(spaced.smartget_filter_map("my tool", "s"), Some("my tool,git+ssh://s/my tool".to_string()));
    assert_eq!(spaced.smartget_filter_map("", ""), Some("my tool,git+ssh:///my tool".to_string()));
    assert_eq!(spaced.smartget_filter_map("my", "s"), Some("my tool,git+ssh://s/my tool".to_string()));
    assert_eq!(spaced.smartget_filter_map("tool my", "s"), None);
}

#[test]
fn the_admin_repository() {
    let admin = Repository::admin("#!/bin/sh\nexit 0\n");
    assert_eq!(admin.name, "admin");
    assert_eq!(admin.symlinks.len(), 1);
    assert_eq!(admin.symlinks[0].path, "admin");
    assert!(admin.tags.is_empty());
    assert!(admin.hooks.pre_receive.is_none());
    assert!(admin.hooks.update.is_none());
    assert!(matches!(admin.hooks.post_receive, Some(Source::Inline(ref t)) if t == "#!/bin/sh\nexit 0\n"));
}

const CONFIG: &str = "
<config>
  <store>/srv/git</store>
  <symlinks>/srv/links</symlinks>
  <repo name='one'><tag>a</tag></repo>
  <repo name='two'><symlink>two</symlink><update src='u.sh'/></repo>
</config>
";

#[test]
fn configuration_of_a_document() {
    let config = Config::load("config.xml", CONFIG).unwrap();
    assert_eq!(config.store, "/srv/git");
    assert_eq!(config.symlinks, "/srv/links");
    assert_eq!(config.repositories.len(), 2);
    assert_eq!(config.repositories[0].name, "one");
    assert_eq!(config.repositories[0].tags, vec!["a"]);
    assert_eq!(config.repositories[1].name, "two");
    assert_eq!(config.repositories[1].symlinks[0].path, "two");
    assert!(matches!(config.repositories[1].hooks.update, Some(Source::File(ref p)) if p == "u.sh"));

    let found = read(CONFIG.trim_start());
    let config = Config::from_element(&found).unwrap();
    assert_eq!(config.repositories.len(), 2);
}

#[test]
fn configuration_faults() {
    let error = Config::load("config.xml", "<settings/>").unwrap_err();
    assert_eq!(error.message, "expected 'config' element");
    assert_eq!((error.position.line, error.position.char), (0, 0));
    assert_eq!(error.position.path, "config.xml");

    let error = Config::load("config.xml", "<config><store>s</store>").unwrap_err();
    assert_eq!(error.message, "missing closing tag");

    let error = Config::load("config.xml", "<config><symlinks>l</symlinks></config>").unwrap_err();
    assert_eq!(error.message, "expected 'store' element");
    assert_eq!(error.position.char, 8);

    let error = Config::load("config.xml", "<config><store>s</store></config>").unwrap_err();
    assert_eq!(error.message, "expected 'symlinks' element");

    let error = Config::load("config.xml", "<config><store><a/></store><symlinks>l</symlinks></config>").unwrap_err();
    assert_eq!(error.message, "expected text content");
    assert_eq!(error.position.char, 15);

    let error = Config::load(
        "config.xml",
        "<config><store>s</store><symlinks>l</symlinks><repo name='a'/>\n<repo/></config>",
    )
    .unwrap_err();
    assert_eq!(error.message, "expected 'name' attribute");
    assert_eq!((error.position.line, error.position.char), (1, 7));
}

#[test]
fn ssh_servers() {
    let ssh = Ssh::from_element(&read(
        "<ssh><command>git-manager</command><arg>--config</arg><remote>git@host</remote><arg>c.xml</arg></ssh>",
    ))
    .unwrap();
    assert_eq!(ssh.remote.as_deref(), Some("git@host"));
    assert_eq!(ssh.command, "git-manager");
    assert_eq!(ssh.args, vec!["--config", "c.xml"]);
    assert_eq!(ssh.command_line("rust cli"), "git-manager --config c.xml 'rust cli'");

    let ssh = Ssh::from_element(&read("<ssh><command>find</command></ssh>")).unwrap();
    assert_eq!(ssh.remote, None);
    assert!(ssh.args.is_empty());
    assert_eq!(ssh.command_line(""), "find ''");

    let error = Ssh::from_element(&read("<ssh><remote>r</remote></ssh>")).unwrap_err();
    assert_eq!(error.message, "expected 'command' element");
    let error = Ssh::from_element(&read("<ssh><remote/><command>c</command></ssh>")).unwrap_err();
    assert_eq!(error.message, "expected text content");
    let error = Ssh::from_element(&read("<ssh><command>c</command><arg>a</arg><arg><b/></arg></ssh>")).unwrap_err();
    assert_eq!(error.message, "expected text content");
    assert_eq!(error.position.char, 42);
}

#[test]
fn servers_of_a_document() {
    let servers = remotes(
        "smartget.xml",
        "<ssh><command>a</command></ssh><ssh><remote>h</remote><command>b</command></ssh>\n<ssh><command>c</command></ssh>",
    )
    .unwrap();
    assert_eq!(servers.len(), 2);
    assert_eq!(servers[0].command, "a");
    assert_eq!(servers[1].command, "b");
    assert_eq!(servers[1].remote.as_deref(), Some("h"));

    assert!(remotes("smartget.xml", "").unwrap().is_empty());
    assert!(remotes("smartget.xml", " <ssh><command>a</command></ssh>").unwrap().is_empty());

    let error = remotes("smartget.xml", "<ssh><command>a</command></ssh><ssh>").unwrap_err();
    assert_eq!(error.message, "missing closing tag");
    let error = remotes("smartget.xml", "<ssh><command>a</command></ssh><ssh/>").unwrap_err();
    assert_eq!(error.message, "expected 'command' element");
    assert_eq!(error.position.char, 37);
}

#[test]
fn texts_in_texts() {
    assert!(str_contains("command-line", "line"));
    assert!(str_contains("command-line", "command-line"));
    assert!(str_contains("command-line", ""));
    assert!(str_contains("", ""));
    assert!(str_contains("aab", "ab"));
    assert!(!str_contains("command-line", "lines"));
    assert!(!str_contains("ab", "abc"));
    assert!(!str_contains("", "a"));
    assert!(!str_contains("abab", "ba "));
    let hay: Vec<char> = "héllo".chars().collect();
    let needle: Vec<char> = "llo".chars().collect();
    assert!(contains(&hay, &needle));
    assert!(found_at(&hay, &needle, 2));
    assert!(!found_at(&hay, &needle, 1));
    let text: Vec<char> = "ab cd".chars().collect();
    assert_eq!(word_end(&text, 0), 2);
    assert_eq!(word_end(&text, 1), 2);
    assert_eq!(word_end(&text, 3), 5);
}

#[test]
fn characters_and_strings() {
    assert_eq!(to_chars("héy"), vec!['h', 'é', 'y']);
    assert!(to_chars("").is_empty());
    let chars = vec!['a', 'b', 'c', 'd'];
    assert_eq!(string_of(&chars, 1, 3), "bc");
    assert_eq!(string_of(&chars, 2, 2), "");
    assert_eq!(string_of(&chars, 0, 4), "abcd");
    let mut out = "x".to_string();
    push_chars(&mut out, &chars);
    assert_eq!(out, "xabcd");
    assert!(chars_equal(&chars, &vec!['a', 'b', 'c', 'd']));
    assert!(!chars_equal(&chars, &vec!['a', 'b', 'c']));
    assert!(!chars_equal(&chars, &vec!['a', 'b', 'c', 'e']));
    assert!(str_equal("abc", "abc"));
    assert!(str_equal("", ""));
    assert!(!str_equal("abc", "abd"));
    assert!(!str_equal("abc", "ab"));
}

#[test]
fn character_classes_agree_with_the_standard_ones() {
    for n in 0..=0x11_0000u32 {
        if let Some(c) = char::from_u32(n) {
            assert_eq!(whitespace(c), c.is_whitespace(), "{n:x}");
            assert_eq!(name_char(c), c.is_ascii_alphanumeric() || c == '.' || c == '_' || c == '-', "{n:x}");
            assert_eq!(name_start(c), c.is_ascii_alphabetic() || c == '_', "{n:x}");
            assert_eq!(letter_ignoring_case(c, 'x'), c == 'x' || c == 'X', "{n:x}");
        }
    }
    assert!(letter_ignoring_case('m', 'm'));
    assert!(letter_ignoring_case('L', 'l'));
    assert!(!letter_ignoring_case('l', 'm'));
}

#[test]
fn attributes_are_found_by_name() {
    let found = read("<a one='1' two/>");
    assert_eq!(find_attribute(&found.attributes, "one"), Some(0));
    assert_eq!(find_attribute(&found.attributes, "two"), Some(1));
    assert_eq!(find_attribute(&found.attributes, "three"), None);
}

#[test]
fn search_of_a_configuration() {
    let config = Config::load("config.xml", CONFIG).unwrap();
    assert_eq!(
        config.search(""),
        vec!["one,git+ssh:///srv/git/one", "two,git+ssh:///srv/git/two"]
    );
    assert_eq!(config.search("a"), vec!["one,git+ssh:///srv/git/one"]);
    assert_eq!(config.search("o"), vec!["one,git+ssh:///srv/git/one", "two,git+ssh:///srv/git/two"]);
    assert_eq!(config.search("tw"), vec!["two,git+ssh:///srv/git/two"]);
    assert!(config.search("three").is_empty());
}
