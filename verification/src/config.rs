//! The configuration of a git server, as it is read from the `config`
//! element of a document: the store, the directory of symlinks, and the
//! repositories with their symlinks, tags and hooks.

use vstd::prelude::*;
use crate::extract::{
    FromElement, FromValue, child_text, collect, fails_with, first_of, gives, lemma_collected,
    no_value_message, only_text, required_text, views,
};
use crate::position::{Error, ErrorView, Position, PositionView};
use crate::search::{contains, is_word, occurs_in, word_end};
use crate::text::{is_whitespace, str_equal, to_chars, whitespace};
use crate::tree::{Element, ElementView, children_named, lookup};
use vstd::string::StringExecFns;

verus! {

/// A symlink to a repository: its path below the directory of symlinks.
#[derive(Debug)]
pub struct Symlink {
    pub path: String,
}

impl View for Symlink {
    type V = Seq<char>;

    open spec fn view(&self) -> Seq<char> {
        self.path@
    }
}

/// The symlink that `element` describes: the one text that it holds.
pub open spec fn symlink_of(element: ElementView) -> Result<Seq<char>, ErrorView> {
    match only_text(element) {
        Some(path) => Ok(path),
        None => Err(ErrorView { message: "provide a path to symlink"@, position: element.position }),
    }
}

impl<'a> FromElement<'a> for Symlink {
    open spec fn element_yields(element: ElementView, result: Result<Self, Error<'a>>) -> bool {
        gives(symlink_of(element), result)
    }

    fn from_element(element: &Element<'a>) -> (result: Result<Self, Error<'a>>) {
        match element.only_text() {
            Some(path) => Ok(Symlink { path: path.to_owned() }),
            None => Err(element.position.error_str("provide a path to symlink")),
        }
    }
}

/// The kinds of hook that a repository can have.
#[derive(Clone, Copy, Debug, PartialEq, Eq, Structural)]
pub enum HookKind {
    PreReceive,
    Update,
    PostReceive,
}

/// The hook kind that `value` names.
pub open spec fn hook_kind_of(value: Seq<char>) -> Option<HookKind> {
    if value == "pre-receive"@ {
        Some(HookKind::PreReceive)
    } else if value == "update"@ {
        Some(HookKind::Update)
    } else if value == "post-receive"@ {
        Some(HookKind::PostReceive)
    } else {
        None
    }
}

impl<'a> FromValue<'a> for HookKind {
    open spec fn value_yields(
        value: Seq<char>,
        position: PositionView,
        result: Result<Self, Error<'a>>,
    ) -> bool {
        match hook_kind_of(value) {
            Some(kind) => result == Ok::<HookKind, Error<'a>>(kind),
            None => fails_with(
                result,
                "expected 'pre-receive', 'update', or 'post-receive'"@,
                position,
            ),
        }
    }

    fn from_value(value: &str, position: &Position<'a>) -> (result: Result<Self, Error<'a>>) {
        if str_equal(value, "pre-receive") {
            Ok(HookKind::PreReceive)
        } else if str_equal(value, "update") {
            Ok(HookKind::Update)
        } else if str_equal(value, "post-receive") {
            Ok(HookKind::PostReceive)
        } else {
            Err(position.error_str("expected 'pre-receive', 'update', or 'post-receive'"))
        }
    }
}

impl HookKind {
    /// The name of the file that holds a hook of this kind.
    pub open spec fn name(self) -> Seq<char> {
        match self {
            HookKind::PreReceive => "pre-receive"@,
            HookKind::Update => "update"@,
            HookKind::PostReceive => "post-receive"@,
        }
    }

    /// The name of the file that holds a hook of this kind.
    pub fn file_name(&self) -> (name: &'static str)
        ensures
            name@ == self.name(),
    {
        match self {
            HookKind::PreReceive => "pre-receive",
            HookKind::Update => "update",
            HookKind::PostReceive => "post-receive",
        }
    }
}

/// The name of a hook's file names that hook's kind.
pub proof fn lemma_hook_kind_of_name(kind: HookKind)
    ensures
        hook_kind_of(kind.name()) == Some(kind),
{
    reveal_strlit("pre-receive");
    reveal_strlit("update");
    reveal_strlit("post-receive");
    assert("pre-receive"@.len() == 11);
    assert("update"@.len() == 6);
    assert("post-receive"@.len() == 12);
}

/// Where the text of a hook comes from: the document itself, or a file.
#[derive(Debug, Clone)]
pub enum Source {
    Inline(String),
    File(String),
}

/// What a [`Source`] stands for.
pub enum SourceView {
    Inline(Seq<char>),
    File(Seq<char>),
}

impl View for Source {
    type V = SourceView;

    open spec fn view(&self) -> SourceView {
        match self {
            Source::Inline(text) => SourceView::Inline(text@),
            Source::File(path) => SourceView::File(path@),
        }
    }
}

/// The message for an element that is not a source.
pub open spec fn no_source_message() -> Seq<char> {
    "expected file content or 'src' attribute"@
}

/// The source that `element` describes: the file that its attribute `src`
/// names, where it has one and holds nothing; the one text that it holds,
/// where it has none. An attribute `src` without a value is an error at that
/// attribute.
pub open spec fn source_of(element: ElementView) -> Result<SourceView, ErrorView> {
    let other = Err(ErrorView { message: no_source_message(), position: element.position });
    match lookup(element.attributes, "src"@) {
        Some(attribute) => match attribute.value {
            Some(path) => if element.contents.len() == 0 {
                Ok(SourceView::File(path))
            } else {
                other
            },
            None => Err(
                ErrorView {
                    message: no_value_message(attribute.name),
                    position: attribute.position,
                },
            ),
        },
        None => match only_text(element) {
            Some(text) => Ok(SourceView::Inline(text)),
            None => other,
        },
    }
}

impl<'a> FromElement<'a> for Source {
    open spec fn element_yields(element: ElementView, result: Result<Self, Error<'a>>) -> bool {
        gives(source_of(element), result)
    }

    fn from_element(element: &Element<'a>) -> (result: Result<Self, Error<'a>>) {
        let src = match element.optional::<String>("src") {
            Ok(src) => src,
            Err(error) => {
                return Err(error);
            },
        };
        match src {
            Some(path) => {
                if element.contents.len() == 0 {
                    proof {
                        crate::tree::lemma_element_view(element);
                        crate::tree::lemma_content_views(element.contents@);
                    }
                    return Ok(Source::File(path));
                }
            },
            None => {
                match element.only_text() {
                    Some(text) => {
                        return Ok(Source::Inline(text.to_owned()));
                    },
                    None => {},
                }
            },
        }
        proof {
            crate::tree::lemma_element_view(element);
            crate::tree::lemma_content_views(element.contents@);
        }
        Err(element.position.error_str("expected file content or 'src' attribute"))
    }
}

impl Source {
    /// A copy of this source.
    pub fn duplicate(&self) -> (copy: Source)
        ensures
            copy@ == self@,
    {
        match self {
            Source::Inline(text) => Source::Inline(text.clone()),
            Source::File(path) => Source::File(path.clone()),
        }
    }
}

/// The hooks of a repository.
#[derive(Debug)]
pub struct Hooks {
    pub pre_receive: Option<Source>,
    pub update: Option<Source>,
    pub post_receive: Option<Source>,
}

/// What [`Hooks`] stand for.
pub struct HooksView {
    pub pre_receive: Option<SourceView>,
    pub update: Option<SourceView>,
    pub post_receive: Option<SourceView>,
}

/// What an optional source stands for.
pub open spec fn source_view(source: Option<Source>) -> Option<SourceView> {
    match source {
        Some(source) => Some(source@),
        None => None,
    }
}

impl View for Hooks {
    type V = HooksView;

    open spec fn view(&self) -> HooksView {
        HooksView {
            pre_receive: source_view(self.pre_receive),
            update: source_view(self.update),
            post_receive: source_view(self.post_receive),
        }
    }
}

/// The source that the first child `name` of `element` describes, if there
/// is such a child.
pub open spec fn hook_of(element: ElementView, name: Seq<char>) -> Result<
    Option<SourceView>,
    ErrorView,
> {
    first_of(children_named(element.contents, name), |child: ElementView| source_of(child))
}

/// The hooks that `element` describes: one for each of its children
/// `pre-receive`, `update` and `post-receive`, as far as they are there. The
/// first of them, in this order, that is no source is an error.
pub open spec fn hooks_of(element: ElementView) -> Result<HooksView, ErrorView> {
    match hook_of(element, "pre-receive"@) {
        Err(error) => Err(error),
        Ok(pre_receive) => match hook_of(element, "update"@) {
            Err(error) => Err(error),
            Ok(update) => match hook_of(element, "post-receive"@) {
                Err(error) => Err(error),
                Ok(post_receive) => Ok(HooksView { pre_receive, update, post_receive }),
            },
        },
    }
}

impl<'a> FromElement<'a> for Hooks {
    open spec fn element_yields(element: ElementView, result: Result<Self, Error<'a>>) -> bool {
        gives(hooks_of(element), result)
    }

    fn from_element(element: &Element<'a>) -> (result: Result<Self, Error<'a>>) {
        let pre_receive = match element.optional_child::<Source>("pre-receive") {
            Ok(source) => source,
            Err(error) => {
                return Err(error);
            },
        };
        let update = match element.optional_child::<Source>("update") {
            Ok(source) => source,
            Err(error) => {
                return Err(error);
            },
        };
        let post_receive = match element.optional_child::<Source>("post-receive") {
            Ok(source) => source,
            Err(error) => {
                return Err(error);
            },
        };
        Ok(Hooks { pre_receive, update, post_receive })
    }
}

/// What is to be done about the file of one hook.
#[derive(Debug)]
pub enum HookAction {
    /// The file is removed.
    Remove,
    /// The file is written anew from the source and made executable.
    Install(Source),
    /// Nothing: there is no hook and no file.
    Nothing,
}

/// What a [`HookAction`] stands for.
pub enum HookActionView {
    Remove,
    Install(SourceView),
    Nothing,
}

impl View for HookAction {
    type V = HookActionView;

    open spec fn view(&self) -> HookActionView {
        match self {
            HookAction::Remove => HookActionView::Remove,
            HookAction::Install(source) => HookActionView::Install(source@),
            HookAction::Nothing => HookActionView::Nothing,
        }
    }
}

/// What is to be done about the file of a hook with the source `source`,
/// where `exists` says whether the file is there.
pub open spec fn hook_action(source: Option<SourceView>, exists: bool) -> HookActionView {
    match source {
        Some(source) => HookActionView::Install(source),
        None => if exists {
            HookActionView::Remove
        } else {
            HookActionView::Nothing
        },
    }
}

/// One hook file and what is to be done about it.
#[derive(Debug)]
pub struct HookStep {
    pub kind: HookKind,
    pub action: HookAction,
}

impl Hooks {
    /// What is to be done about the file of a hook with the source `source`,
    /// where `exists` says whether the file is there: a hook that is
    /// configured is installed, the file of one that is not is removed.
    pub fn update_hook(source: &Option<Source>, exists: bool) -> (action: HookAction)
        ensures
            action@ == hook_action(source_view(*source), exists),
    {
        match source {
            Some(source) => HookAction::Install(source.duplicate()),
            None => if exists {
                HookAction::Remove
            } else {
                HookAction::Nothing
            },
        }
    }

    /// What is to be done about the three hook files, in the order
    /// `pre-receive`, `update`, `post-receive`, where the arguments say
    /// which of the files are there.
    pub fn update(
        &self,
        pre_receive_exists: bool,
        update_exists: bool,
        post_receive_exists: bool,
    ) -> (steps: Vec<HookStep>)
        ensures
            steps@.len() == 3,
            steps@[0].kind == HookKind::PreReceive,
            steps@[0].action@ == hook_action(self@.pre_receive, pre_receive_exists),
            steps@[1].kind == HookKind::Update,
            steps@[1].action@ == hook_action(self@.update, update_exists),
            steps@[2].kind == HookKind::PostReceive,
            steps@[2].action@ == hook_action(self@.post_receive, post_receive_exists),
    {
        let mut steps: Vec<HookStep> = Vec::new();
        steps.push(
            HookStep {
                kind: HookKind::PreReceive,
                action: Self::update_hook(&self.pre_receive, pre_receive_exists),
            },
        );
        steps.push(
            HookStep {
                kind: HookKind::Update,
                action: Self::update_hook(&self.update, update_exists),
            },
        );
        steps.push(
            HookStep {
                kind: HookKind::PostReceive,
                action: Self::update_hook(&self.post_receive, post_receive_exists),
            },
        );
        steps
    }
}

/// A tag of a repository: a word by which it is found.
#[derive(Debug)]
pub struct Tag(pub String);

impl View for Tag {
    type V = Seq<char>;

    open spec fn view(&self) -> Seq<char> {
        self.0@
    }
}

/// Whether `text` holds white space.
pub open spec fn has_whitespace(text: Seq<char>) -> bool {
    exists|i: int| 0 <= i < text.len() && crate::text::is_whitespace(#[trigger] text[i])
}

/// The tag that `element` describes: the one text that it holds, which must
/// be free of white space.
pub open spec fn tag_of(element: ElementView) -> Result<Seq<char>, ErrorView> {
    match only_text(element) {
        Some(tag) => if has_whitespace(tag) {
            Err(
                ErrorView {
                    message: "tag must not contain whitespace"@,
                    position: element.position,
                },
            )
        } else {
            Ok(tag)
        },
        None => Err(
            ErrorView {
                message: "expected tag to contain text with no whitespace"@,
                position: element.position,
            },
        ),
    }
}

/// Whether `text` holds white space.
pub fn holds_whitespace(text: &str) -> (found: bool)
    ensures
        found == has_whitespace(text@),
{
    let chars = crate::text::to_chars(text);
    let mut i: usize = 0;
    while i < chars.len()
        invariant
            i <= chars.len(),
            chars@ == text@,
            forall|k: int| 0 <= k < i ==> !crate::text::is_whitespace(#[trigger] chars@[k]),
        decreases chars.len() - i,
    {
        if crate::text::whitespace(chars[i]) {
            assert(crate::text::is_whitespace(text@[i as int]));
            return true;
        }
        i += 1;
    }
    false
}

impl<'a> FromElement<'a> for Tag {
    open spec fn element_yields(element: ElementView, result: Result<Self, Error<'a>>) -> bool {
        gives(tag_of(element), result)
    }

    fn from_element(element: &Element<'a>) -> (result: Result<Self, Error<'a>>) {
        match element.only_text() {
            Some(tag) => {
                if holds_whitespace(tag) {
                    Err(element.position.error_str("tag must not contain whitespace"))
                } else {
                    Ok(Tag(tag.to_owned()))
                }
            },
            None => Err(
                element.position.error_str("expected tag to contain text with no whitespace"),
            ),
        }
    }
}

/// A repository: its name, its symlinks, the tags by which it is found, and
/// its hooks.
#[derive(Debug)]
pub struct Repository {
    pub name: String,
    pub symlinks: Vec<Symlink>,
    pub tags: Vec<String>,
    pub hooks: Hooks,
}

/// What a [`Repository`] stands for.
pub struct RepositoryView {
    pub name: Seq<char>,
    pub symlinks: Seq<Seq<char>>,
    pub tags: Seq<Seq<char>>,
    pub hooks: HooksView,
}

impl View for Repository {
    type V = RepositoryView;

    open spec fn view(&self) -> RepositoryView {
        RepositoryView {
            name: self.name@,
            symlinks: views(self.symlinks@),
            tags: views(self.tags@),
            hooks: self.hooks@,
        }
    }
}

/// The repository that `element` describes: its attribute `name`, its
/// children `symlink` and `tag`, and its hooks. The first of these, in this
/// order, that is missing or malformed is an error.
pub open spec fn repository_of(element: ElementView) -> Result<RepositoryView, ErrorView> {
    match required_text(element, "name"@) {
        Err(error) => Err(error),
        Ok(name) => match collect(
            children_named(element.contents, "symlink"@),
            |child: ElementView| symlink_of(child),
        ) {
            Err(error) => Err(error),
            Ok(symlinks) => match collect(
                children_named(element.contents, "tag"@),
                |child: ElementView| tag_of(child),
            ) {
                Err(error) => Err(error),
                Ok(tags) => match hooks_of(element) {
                    Err(error) => Err(error),
                    Ok(hooks) => Ok(RepositoryView { name, symlinks, tags, hooks }),
                },
            },
        },
    }
}

impl<'a> FromElement<'a> for Repository {
    open spec fn element_yields(element: ElementView, result: Result<Self, Error<'a>>) -> bool {
        gives(repository_of(element), result)
    }

    fn from_element(element: &Element<'a>) -> (result: Result<Self, Error<'a>>) {
        let name = match element.required::<String>("name") {
            Ok(name) => name,
            Err(error) => {
                return Err(error);
            },
        };
        let collected = element.collect_children::<Symlink>("symlink");
        proof {
            lemma_collected::<Symlink>(
                children_named(element@.contents, "symlink"@),
                |child: ElementView| symlink_of(child),
                collected,
            );
        }
        let symlinks = match collected {
            Ok(symlinks) => symlinks,
            Err(error) => {
                return Err(error);
            },
        };
        let collected = element.collect_children::<Tag>("tag");
        proof {
            lemma_collected::<Tag>(
                children_named(element@.contents, "tag"@),
                |child: ElementView| tag_of(child),
                collected,
            );
        }
        let tags = match collected {
            Ok(tags) => untagged(tags),
            Err(error) => {
                return Err(error);
            },
        };
        let hooks = match Hooks::from_element(element) {
            Ok(hooks) => hooks,
            Err(error) => {
                return Err(error);
            },
        };
        Ok(Repository { name, symlinks, tags, hooks })
    }
}

/// The texts of `tags`.
fn untagged(tags: Vec<Tag>) -> (texts: Vec<String>)
    ensures
        views(texts@) == views(tags@),
{
    let mut texts: Vec<String> = Vec::new();
    let mut i: usize = 0;
    while i < tags.len()
        invariant
            i <= tags.len(),
            texts@.len() == i,
            forall|k: int| 0 <= k < i ==> (#[trigger] texts@[k])@ == tags@[k]@,
        decreases tags.len() - i,
    {
        texts.push(tags[i].0.clone());
        i += 1;
    }
    assert(views(texts@) =~= views(tags@));
    texts
}

/// Whether one of `tags` holds `term`.
pub open spec fn tagged_with(tags: Seq<Seq<char>>, term: Seq<char>) -> bool {
    exists|t: int| 0 <= t < tags.len() && occurs_in(#[trigger] tags[t], term)
}

/// Whether every word of `search` occurs in one of `tags`.
pub open spec fn all_words_tagged(tags: Seq<Seq<char>>, search: Seq<char>) -> bool {
    forall|from: int, to: int| #[trigger]
        is_word(search, from, to) ==> tagged_with(tags, search.subrange(from, to))
}

/// Whether a search for `search` finds `repository`: every word of the
/// search occurs in one of its tags, or the whole search occurs in its name.
pub open spec fn found_by(repository: RepositoryView, search: Seq<char>) -> bool {
    all_words_tagged(repository.tags, search) || occurs_in(repository.name, search)
}

/// The line that a search prints for a repository `name` in `store`.
pub open spec fn search_line(name: Seq<char>, store: Seq<char>) -> Seq<char> {
    name + ",git+ssh://"@ + store + "/"@ + name
}

impl Repository {
    /// Whether one of the tags holds `term`.
    fn tagged(&self, term: &Vec<char>) -> (found: bool)
        ensures
            found == tagged_with(self@.tags, term@),
    {
        let mut t: usize = 0;
        while t < self.tags.len()
            invariant
                t <= self.tags.len(),
                forall|k: int| 0 <= k < t ==> !occurs_in(#[trigger] self@.tags[k], term@),
            decreases self.tags.len() - t,
        {
            let tag = to_chars(self.tags[t].as_str());
            if contains(&tag, term) {
                assert(occurs_in(self@.tags[t as int], term@));
                return true;
            }
            t += 1;
        }
        false
    }

    /// Whether every word of `search` occurs in one of the tags.
    fn all_tagged(&self, search: &Vec<char>) -> (all: bool)
        ensures
            all == all_words_tagged(self@.tags, search@),
    {
        let mut i: usize = 0;
        while i < search.len()
            invariant
                i <= search.len(),
                i == 0 || is_whitespace(search@[i - 1]) || i == search.len() || is_whitespace(
                    search@[i as int],
                ),
                forall|from: int, to: int| #[trigger]
                    is_word(search@, from, to) && to <= i ==> tagged_with(
                        self@.tags,
                        search@.subrange(from, to),
                    ),
            decreases search.len() - i,
        {
            if whitespace(search[i]) {
                assert forall|from: int, to: int| #[trigger]
                    is_word(search@, from, to) && to <= i + 1 implies tagged_with(
                    self@.tags,
                    search@.subrange(from, to),
                ) by {
                    if to == i + 1 {
                        assert(!is_whitespace(search@[to - 1]));
                    }
                }
                i += 1;
            } else {
                let to = word_end(search, i);
                let term = crate::text::string_of(search, i, to);
                let term = to_chars(term.as_str());
                assert(is_word(search@, i as int, to as int));
                if !self.tagged(&term) {
                    return false;
                }
                assert forall|a: int, b: int| #[trigger]
                    is_word(search@, a, b) && b <= to implies tagged_with(
                    self@.tags,
                    search@.subrange(a, b),
                ) by {
                    if b > i {
                        if b < to {
                            assert(!is_whitespace(search@[b]));
                        }
                        if a < i {
                            assert(!is_whitespace(search@[i - 1]));
                        }
                        if a > i {
                            assert(!is_whitespace(search@[a - 1]));
                        }
                    }
                }
                i = to;
            }
        }
        true
    }

    /// The line that a search for `search` prints for this repository, which
    /// lies in `store`, if the search finds it.
    pub fn smartget_filter_map(&self, search: &str, store: &str) -> (line: Option<String>)
        ensures
            match line {
                Some(text) => found_by(self@, search@) && text@ == search_line(self@.name, store@),
                None => !found_by(self@, search@),
            },
    {
        let wanted = to_chars(search);
        let name = to_chars(self.name.as_str());
        let matches = self.all_tagged(&wanted) || contains(&name, &wanted);
        if !matches {
            return None;
        }
        let mut line = self.name.clone();
        line.append(",git+ssh://");
        line.append(store);
        line.append("/");
        line.append(self.name.as_str());
        Some(line)
    }

    /// The repository of the server's own configuration: it is named
    /// `admin`, has the symlink `admin`, no tags, and one hook, which runs
    /// `post_update` after a push.
    pub fn admin(post_update: &str) -> (repository: Self)
        ensures
            repository@ == (RepositoryView {
                name: "admin"@,
                symlinks: seq!["admin"@],
                tags: Seq::empty(),
                hooks: HooksView {
                    pre_receive: None,
                    update: None,
                    post_receive: Some(SourceView::Inline(post_update@)),
                },
            }),
    {
        let mut symlinks: Vec<Symlink> = Vec::new();
        symlinks.push(Symlink { path: "admin".to_owned() });
        let tags: Vec<String> = Vec::new();
        let repository = Repository {
            name: "admin".to_owned(),
            symlinks,
            tags,
            hooks: Hooks {
                pre_receive: None,
                update: None,
                post_receive: Some(Source::Inline(post_update.to_owned())),
            },
        };
        assert(repository@.symlinks =~= seq!["admin"@]);
        assert(repository@.tags =~= Seq::<Seq<char>>::empty());
        repository
    }
}

/// The configuration of a server: the directory that holds the
/// repositories, the directory that holds the symlinks, and the
/// repositories.
#[derive(Debug)]
pub struct Config {
    pub store: String,
    pub symlinks: String,
    pub repositories: Vec<Repository>,
}

/// What a [`Config`] stands for.
pub struct ConfigView {
    pub store: Seq<char>,
    pub symlinks: Seq<char>,
    pub repositories: Seq<RepositoryView>,
}

impl View for Config {
    type V = ConfigView;

    open spec fn view(&self) -> ConfigView {
        ConfigView {
            store: self.store@,
            symlinks: self.symlinks@,
            repositories: views(self.repositories@),
        }
    }
}

/// The configuration that `element` describes: the texts of its children
/// `store` and `symlinks`, and its children `repo`. The first of these, in
/// this order, that is missing or malformed is an error.
pub open spec fn config_of(element: ElementView) -> Result<ConfigView, ErrorView> {
    match child_text(element, "store"@) {
        Err(error) => Err(error),
        Ok(store) => match child_text(element, "symlinks"@) {
            Err(error) => Err(error),
            Ok(symlinks) => match collect(
                children_named(element.contents, "repo"@),
                |child: ElementView| repository_of(child),
            ) {
                Err(error) => Err(error),
                Ok(repositories) => Ok(ConfigView { store, symlinks, repositories }),
            },
        },
    }
}

impl<'a> FromElement<'a> for Config {
    open spec fn element_yields(element: ElementView, result: Result<Self, Error<'a>>) -> bool {
        gives(config_of(element), result)
    }

    fn from_element(element: &Element<'a>) -> (result: Result<Self, Error<'a>>) {
        let store = match element.child::<String>("store") {
            Ok(store) => store,
            Err(error) => {
                return Err(error);
            },
        };
        let symlinks = match element.child::<String>("symlinks") {
            Ok(symlinks) => symlinks,
            Err(error) => {
                return Err(error);
            },
        };
        let collected = element.collect_children::<Repository>("repo");
        proof {
            lemma_collected::<Repository>(
                children_named(element@.contents, "repo"@),
                |child: ElementView| repository_of(child),
                collected,
            );
        }
        match collected {
            Ok(repositories) => Ok(Config { store, symlinks, repositories }),
            Err(error) => Err(error),
        }
    }
}

/// The configuration that the document `source` holds: the one that its
/// element `config` describes.
pub open spec fn config_in(source: crate::position::Source) -> Result<ConfigView, ErrorView> {
    match crate::document::root_of(source, "config"@) {
        Ok(element) => config_of(element),
        Err(error) => Err(error),
    }
}

impl Config {
    /// The configuration that the document `src`, from the file `path`,
    /// holds.
    pub fn load<'a>(path: &'a str, src: &'a str) -> (result: Result<Config, Error<'a>>)
        ensures
            gives(config_in(crate::position::Source { path: path@, text: src@ }), result),
    {
        match crate::document::root(path, src, "config") {
            Ok(element) => Config::from_element(&element),
            Err(error) => Err(error),
        }
    }
}

/// The lines that a search for `search` prints for those of `repositories`
/// that it finds, in their order, where they lie in `store`.
pub open spec fn search_lines(
    repositories: Seq<RepositoryView>,
    search: Seq<char>,
    store: Seq<char>,
) -> Seq<Seq<char>>
    decreases repositories.len(),
{
    if repositories.len() == 0 {
        Seq::empty()
    } else {
        let before = search_lines(repositories.drop_last(), search, store);
        if found_by(repositories.last(), search) {
            before.push(search_line(repositories.last().name, store))
        } else {
            before
        }
    }
}

impl Config {
    /// The lines that a search for `search` prints: one for each repository
    /// that it finds, in the order of the configuration.
    pub fn search(&self, search: &str) -> (lines: Vec<String>)
        ensures
            views(lines@) == search_lines(self@.repositories, search@, self@.store),
    {
        let mut lines: Vec<String> = Vec::new();
        let ghost all = self@.repositories;
        let mut i: usize = 0;
        assert(all.take(0) == Seq::<RepositoryView>::empty());
        assert(views(lines@) == Seq::<Seq<char>>::empty());
        while i < self.repositories.len()
            invariant
                i <= self.repositories.len(),
                all == self@.repositories,
                views(lines@) == search_lines(all.take(i as int), search@, self@.store),
            decreases self.repositories.len() - i,
        {
            proof {
                assert(all.take(i + 1).drop_last() == all.take(i as int));
                assert(all.take(i + 1).last() == self.repositories[i as int]@);
            }
            match self.repositories[i].smartget_filter_map(search, self.store.as_str()) {
                Some(line) => {
                    assert(views(lines@.push(line)) == views(lines@).push(line@));
                    lines.push(line);
                },
                None => {},
            }
            i += 1;
        }
        assert(all.take(self.repositories.len() as int) == all);
        lines
    }
}

} // verus!
