//! Remote servers that are searched over ssh, as a document describes them.

use vstd::prelude::*;
use vstd::string::StringExecFns;
use crate::extract::{
    FromElement, child_text, collect, first_of, gives, lemma_collected, text_of, views,
};
use crate::grammar::{Outcome, element_at, lemma_element_bounds};
use crate::parse::element;
use crate::parser::Parser;
use crate::position::{Error, ErrorView, Source};
use crate::tree::{Element, ElementView, children_named};

verus! {

/// A server that is searched over ssh: the host, the command that searches
/// on it, and the arguments of that command.
#[derive(Debug)]
pub struct Ssh {
    pub remote: Option<String>,
    pub command: String,
    pub args: Vec<String>,
}

/// What an [`Ssh`] stands for.
pub struct SshView {
    pub remote: Option<Seq<char>>,
    pub command: Seq<char>,
    pub args: Seq<Seq<char>>,
}

impl View for Ssh {
    type V = SshView;

    open spec fn view(&self) -> SshView {
        SshView {
            remote: match self.remote {
                Some(remote) => Some(remote@),
                None => None,
            },
            command: self.command@,
            args: views(self.args@),
        }
    }
}

/// The server that `element` describes: the text of its first child
/// `remote`, if it has one, the text of its first child `command`, and the
/// texts of its children `arg`. The first of these, in this order, that is
/// missing or malformed is an error.
pub open spec fn ssh_of(element: ElementView) -> Result<SshView, ErrorView> {
    match first_of(
        children_named(element.contents, "remote"@),
        |child: ElementView| text_of(child),
    ) {
        Err(error) => Err(error),
        Ok(remote) => match child_text(element, "command"@) {
            Err(error) => Err(error),
            Ok(command) => match collect(
                children_named(element.contents, "arg"@),
                |child: ElementView| text_of(child),
            ) {
                Err(error) => Err(error),
                Ok(args) => Ok(SshView { remote, command, args }),
            },
        },
    }
}

impl<'a> FromElement<'a> for Ssh {
    open spec fn element_yields(element: ElementView, result: Result<Self, Error<'a>>) -> bool {
        gives(ssh_of(element), result)
    }

    fn from_element(element: &Element<'a>) -> (result: Result<Self, Error<'a>>) {
        let remote = match element.optional_child::<String>("remote") {
            Ok(remote) => remote,
            Err(error) => {
                return Err(error);
            },
        };
        let command = match element.child::<String>("command") {
            Ok(command) => command,
            Err(error) => {
                return Err(error);
            },
        };
        let collected = element.collect_children::<String>("arg");
        proof {
            lemma_collected::<String>(
                children_named(element@.contents, "arg"@),
                |child: ElementView| text_of(child),
                collected,
            );
        }
        match collected {
            Ok(args) => Ok(Ssh { remote, command, args }),
            Err(error) => Err(error),
        }
    }
}

/// `words`, each with a space before it, in one text.
pub open spec fn spaced(words: Seq<Seq<char>>) -> Seq<char>
    decreases words.len(),
{
    if words.len() == 0 {
        Seq::empty()
    } else {
        spaced(words.drop_last()) + seq![' '] + words.last()
    }
}

/// The command line that searches a server for `search`: the command, its
/// arguments, and the search between single quotes, with spaces between
/// them.
pub open spec fn command_line(ssh: SshView, search: Seq<char>) -> Seq<char> {
    ssh.command + spaced(ssh.args) + seq![' ', '\''] + search + seq!['\'']
}

impl Ssh {
    /// The command line that searches this server for `search`.
    pub fn command_line(&self, search: &str) -> (line: String)
        ensures
            line@ == command_line(self@, search@),
    {
        let mut line = self.command.clone();
        let mut i: usize = 0;
        assert(self@.args.take(0) == Seq::<Seq<char>>::empty());
        while i < self.args.len()
            invariant
                i <= self.args.len(),
                line@ == self.command@ + spaced(self@.args.take(i as int)),
            decreases self.args.len() - i,
        {
            line.push(' ');
            line.append(self.args[i].as_str());
            proof {
                let now = self@.args.take(i + 1);
                assert(now.drop_last() == self@.args.take(i as int));
                assert(now.last() == self.args[i as int]@);
                assert(self.command@ + spaced(now.drop_last()) + seq![' '] + now.last()
                    == self.command@ + (spaced(now.drop_last()) + seq![' '] + now.last()));
                assert((self.command@ + spaced(now.drop_last())).push(' ') == self.command@
                    + spaced(now.drop_last()) + seq![' ']);
            }
            i += 1;
        }
        assert(self@.args.take(self.args.len() as int) == self@.args);
        let ghost head = line@;
        line.push(' ');
        line.push('\'');
        line.append(search);
        line.push('\'');
        proof {
            assert(head.push(' ').push('\'') == head + seq![' ', '\'']);
            assert((head + seq![' ', '\''] + search@).push('\'') == head + seq![' ', '\'']
                + search@ + seq!['\'']);
        }
        line
    }
}

/// The servers that the elements of `source` from `at` on describe, behind
/// those in `before`: one for each element, up to the first place where no
/// element stands. The first element that is malformed or describes no
/// server is an error.
pub open spec fn remotes_at(source: Source, at: nat, before: Seq<SshView>) -> Result<
    Seq<SshView>,
    ErrorView,
>
    decreases source.text.len() - at,
{
    match element_at(source, at) {
        Outcome::Decline => Ok(before),
        Outcome::Failure { error } => Err(error),
        Outcome::Success { value, end } => match ssh_of(value) {
            Err(error) => Err(error),
            Ok(ssh) => {
                proof {
                    if at <= source.text.len() {
                        lemma_element_bounds(source, at);
                    }
                }
                remotes_at(source, end, before.push(ssh))
            },
        },
    }
}

/// The servers that the document `src`, from the file `path`, describes.
pub fn remotes<'a>(path: &'a str, src: &'a str) -> (result: Result<Vec<Ssh>, Error<'a>>)
    ensures
        match remotes_at(Source { path: path@, text: src@ }, 0, Seq::empty()) {
            Ok(servers) => result matches Ok(found) && views(found@) == servers,
            Err(error) => result matches Err(found) && found@ == error,
        },
{
    let mut parser = Parser::new(path, src);
    let ghost source = parser.source();
    let mut servers: Vec<Ssh> = Vec::new();
    assert(views(servers@) == Seq::<SshView>::empty());
    loop
        invariant
            parser.wf(),
            parser.source() == source,
            source == (Source { path: path@, text: src@ }),
            remotes_at(source, parser.offset(), views(servers@)) == remotes_at(
                source,
                0,
                Seq::empty(),
            ),
        decreases source.text.len() - parser.offset(),
    {
        proof {
            parser.lemma_offset_bounded();
            lemma_element_bounds(source, parser.offset());
        }
        match element(&mut parser) {
            None => {
                return Ok(servers);
            },
            Some(Err(error)) => {
                return Err(error);
            },
            Some(Ok(found)) => match Ssh::from_element(&found) {
                Ok(ssh) => {
                    assert(views(servers@.push(ssh)) == views(servers@).push(ssh@));
                    servers.push(ssh);
                },
                Err(error) => {
                    return Err(error);
                },
            },
        }
    }
}

} // verus!
