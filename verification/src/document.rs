//! How the text of a configuration is read: the part of TOML that generated configurations keep to.
use vstd::prelude::*;

use crate::config::{ConfigToml, Peer};
use crate::text::{decimal, decimal_text_stands_for_its_number, is_number, number_of};

verus! {

/// What a text says: its settings, and those of each peer in their order.
pub struct Document {
    pub settings: Map<Seq<char>, Seq<char>>,
    pub peers: Seq<Map<Seq<char>, Seq<char>>>,
}

/// A text with nothing in it.
pub open spec fn blank() -> Document {
    Document { settings: Map::empty(), peers: Seq::empty() }
}

/// The place of the first such character, or the length of the text if there is none.
pub open spec fn first(text: Seq<char>, c: char) -> int
    decreases text.len(),
{
    if text.len() == 0 || text[0] == c {
        0
    } else {
        1 + first(text.drop_first(), c)
    }
}

/// A name of small letters, digits and underscores.
pub open spec fn is_name(text: Seq<char>) -> bool {
    text.len() > 0 && forall|i: int|
        0 <= i < text.len() ==> ('a' <= #[trigger] text[i] <= 'z' || '0' <= text[i] <= '9'
            || text[i] == '_')
}

/// Printable characters that need no escape between quotes.
pub open spec fn is_plain(text: Seq<char>) -> bool {
    forall|i: int|
        0 <= i < text.len() ==> ' ' <= #[trigger] text[i] <= '~' && text[i] != '"' && text[i]
            != '\\'
}

/// A text between quotes.
pub open spec fn quoted(text: Seq<char>) -> Seq<char> {
    seq!['"'] + text + seq!['"']
}

/// A number, or a plain text between quotes.
pub open spec fn is_value(text: Seq<char>) -> bool {
    is_number(text) || exists|inner: Seq<char>| is_plain(inner) && text == #[trigger] quoted(inner)
}

impl Document {
    /// The document with one setting more: of the last peer, or of the node before the first peer.
    pub open spec fn set(self, name: Seq<char>, value: Seq<char>) -> Document {
        if self.peers.len() == 0 {
            Document { settings: self.settings.insert(name, value), ..self }
        } else {
            Document {
                peers: self.peers.drop_last().push(self.peers.last().insert(name, value)),
                ..self
            }
        }
    }

    /// Whether the setting was made already where the next one is made.
    pub open spec fn has(self, name: Seq<char>) -> bool {
        if self.peers.len() == 0 {
            self.settings.contains_key(name)
        } else {
            self.peers.last().contains_key(name)
        }
    }

    /// The document after one more line, if the line can be read: nothing, a comment, the head of a
    /// peer, or a setting that was not made yet.
    pub open spec fn line(self, line: Seq<char>) -> Option<Document> {
        let at = first(line, '=');
        let name = line.take(at - 1);
        let value = line.skip(at + 2);
        if line.len() == 0 || line[0] == '#' {
            Some(self)
        } else if line == "[[peers]]"@ {
            Some(Document { peers: self.peers.push(Map::empty()), ..self })
        } else if 2 <= at < line.len() - 2 && line[at - 1] == ' ' && line[at + 1] == ' ' && is_name(
            name,
        ) && is_value(value) && !self.has(name) {
            Some(self.set(name, value))
        } else {
            None
        }
    }
}

/// What a text says after what was read before it, if it can be read: line by line.
pub open spec fn read_on(doc: Document, text: Seq<char>) -> Option<Document>
    decreases text.len(),
{
    if text.len() == 0 {
        Some(doc)
    } else {
        let end = first(text, '\n');
        match doc.line(text.take(end)) {
            None => None,
            Some(next) => if 0 <= end < text.len() {
                read_on(next, text.skip(end + 1))
            } else {
                Some(next)
            },
        }
    }
}

/// What a text says, if it can be read.
pub open spec fn read(text: Seq<char>) -> Option<Document> {
    read_on(blank(), text)
}

/// Whether the settings have this text under the name.
pub open spec fn has_text(settings: Map<Seq<char>, Seq<char>>, name: Seq<char>, text: String) -> bool {
    settings.contains_key(name) && settings[name] == quoted(text@)
}

/// Whether the settings have this text under the name, or neither has any.
pub open spec fn may_have_text(
    settings: Map<Seq<char>, Seq<char>>,
    name: Seq<char>,
    text: Option<String>,
) -> bool {
    match text {
        Some(text) => has_text(settings, name, text),
        None => !settings.contains_key(name),
    }
}

/// Whether the settings have this number under the name, or neither has any.
pub open spec fn may_have_number(
    settings: Map<Seq<char>, Seq<char>>,
    name: Seq<char>,
    number: Option<u16>,
) -> bool {
    match number {
        Some(number) => settings.contains_key(name) && is_number(settings[name]) && number_of(
            settings[name],
        ) == number,
        None => !settings.contains_key(name),
    }
}

/// Whether the settings are those of the peer.
pub open spec fn is_peer(settings: Map<Seq<char>, Seq<char>>, peer: Peer) -> bool {
    has_text(settings, "pub_key"@, peer.pub_key) && has_text(settings, "ipv4"@, peer.ipv4)
}

/// Whether the text can be read and says this configuration. A text without a peer says none.
pub open spec fn says(text: Seq<char>, toml: ConfigToml) -> bool {
    read(text) matches Some(doc) && {
        &&& has_text(doc.settings, "secret_key_path"@, toml.secret_key_path)
        &&& has_text(doc.settings, "node_ipv4"@, toml.node_ipv4)
        &&& may_have_text(doc.settings, "tun_name"@, toml.tun_name)
        &&& may_have_number(doc.settings, "listen_port"@, toml.listen_port)
        &&& may_have_number(doc.settings, "mtu"@, toml.mtu)
        &&& may_have_text(doc.settings, "log_level"@, toml.log_level)
        &&& may_have_text(doc.settings, "log_path"@, toml.log_path)
        &&& doc.peers.len() > 0
        &&& toml.peers@.len() == doc.peers.len()
        &&& forall|i: int|
            0 <= i < doc.peers.len() ==> is_peer(#[trigger] doc.peers[i], toml.peers@[i])
    }
}

/// A line and its end.
pub open spec fn ended(line: Seq<char>) -> Seq<char> {
    line.push('\n')
}

/// A setting as it is written.
pub open spec fn setting(name: Seq<char>, value: Seq<char>) -> Seq<char> {
    name + seq![' ', '=', ' '] + value
}

/// The first such character stands where none stands before it.
proof fn lemma_first(text: Seq<char>, c: char, at: int)
    requires
        0 <= at <= text.len(),
        forall|i: int| 0 <= i < at ==> #[trigger] text[i] != c,
        at < text.len() ==> text[at] == c,
    ensures
        first(text, c) == at,
    decreases at,
{
    if at > 0 {
        let rest = text.drop_first();
        assert forall|i: int| 0 <= i < at - 1 implies #[trigger] rest[i] != c by {
            assert(rest[i] == text[i + 1]);
        }
        assert(text[0] != c);
        assert(at < text.len() ==> rest[at - 1] == text[at]);
        lemma_first(rest, c, at - 1);
    }
}

/// A text is read a line at a time.
pub proof fn text_is_read_by_lines(doc: Document, line: Seq<char>, rest: Seq<char>)
    requires
        forall|i: int| 0 <= i < line.len() ==> #[trigger] line[i] != '\n',
    ensures
        read_on(doc, ended(line) + rest) == (match doc.line(line) {
            None => None,
            Some(next) => read_on(next, rest),
        }),
{
    let text = ended(line) + rest;
    assert forall|i: int| 0 <= i < line.len() implies #[trigger] text[i] != '\n' by {
        assert(text[i] == line[i]);
    }
    assert(text[line.len() as int] == '\n');
    lemma_first(text, '\n', line.len() as int);
    assert(text.take(line.len() as int) =~= line);
    assert(text.skip(line.len() as int + 1) =~= rest);
}

/// A setting that was not made yet is made.
pub proof fn settings_are_read(doc: Document, name: Seq<char>, value: Seq<char>)
    requires
        is_name(name),
        is_value(value),
        !doc.has(name),
    ensures
        doc.line(setting(name, value)) == Some(doc.set(name, value)),
        forall|i: int| 0 <= i < setting(name, value).len() ==> #[trigger] setting(name, value)[i] != '\n',
{
    let line = setting(name, value);
    let at: int = name.len() as int + 1;
    reveal_strlit("[[peers]]");
    assert forall|i: int| 0 <= i < at implies #[trigger] line[i] != '=' by {
        if i < name.len() {
            assert(line[i] == name[i]);
        }
    }
    assert(line[at] == '=');
    assert(line[0] == name[0]);
    lemma_first(line, '=', at);
    assert(line.take(at - 1) =~= name);
    assert(line.skip(at + 2) =~= value);
    assert(value.len() > 0);
    assert forall|i: int| 0 <= i < line.len() implies #[trigger] line[i] != '\n' by {
        if i < name.len() {
            assert(line[i] == name[i]);
        } else if i >= name.len() + 3 {
            let k = i - name.len() - 3;
            assert(line[i] == value[k]);
            if !is_number(value) {
                let inner = choose|inner: Seq<char>|
                    is_plain(inner) && value == #[trigger] quoted(inner);
                if 0 < k < value.len() - 1 {
                    assert(value[k] == inner[k - 1]);
                }
            }
        }
    }
}

/// Whether every character from a place on is of some sort.
pub open spec fn all_from(text: Seq<char>, sort: spec_fn(char) -> bool, i: int) -> bool
    decreases text.len() - i,
{
    i >= text.len() || (sort(text[i]) && all_from(text, sort, i + 1))
}

/// Looking at each place in turn finds every place.
pub(crate) proof fn lemma_all(text: Seq<char>, sort: spec_fn(char) -> bool, i: int)
    requires
        0 <= i,
        all_from(text, sort, i),
    ensures
        forall|j: int| i <= j < text.len() ==> sort(#[trigger] text[j]),
    decreases text.len() - i,
{
    if i < text.len() {
        lemma_all(text, sort, i + 1);
    }
}

/// Plain texts one after the other are plain.
pub(crate) proof fn lemma_plain(a: Seq<char>, b: Seq<char>)
    requires
        is_plain(a),
        is_plain(b),
    ensures
        is_plain(a + b),
{
    assert forall|i: int| 0 <= i < (a + b).len() implies ' ' <= #[trigger] (a + b)[i] <= '~' && (a
        + b)[i] != '"' && (a + b)[i] != '\\' by {
        if i < a.len() {
            assert((a + b)[i] == a[i]);
        } else {
            assert((a + b)[i] == b[i - a.len()]);
        }
    }
}

/// Decimal numbers are plain.
pub(crate) proof fn lemma_decimal_is_plain(n: nat)
    ensures
        is_plain(decimal(n)),
{
    decimal_text_stands_for_its_number(n);
}

/// Whether two texts agree from a place on.
pub open spec fn same_from(a: Seq<char>, b: Seq<char>, i: int) -> bool
    decreases a.len() - i,
{
    i >= a.len() || (a[i] == b[i] && same_from(a, b, i + 1))
}

/// Two texts as long that agree at each place are one text.
pub(crate) proof fn lemma_same(a: Seq<char>, b: Seq<char>)
    requires
        a.len() == b.len(),
        same_from(a, b, 0),
    ensures
        a == b,
{
    lemma_same_on(a, b, 0);
    assert(a =~= b);
}

proof fn lemma_same_on(a: Seq<char>, b: Seq<char>, i: int)
    requires
        0 <= i,
        same_from(a, b, i),
    ensures
        forall|j: int| i <= j < a.len() ==> #[trigger] a[j] == b[j],
    decreases a.len() - i,
{
    if i < a.len() {
        lemma_same_on(a, b, i + 1);
    }
}

} // verus!
