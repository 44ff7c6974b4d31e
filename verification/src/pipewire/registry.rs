//! The sinks of the graph and the choice of the default one.

use vstd::prelude::*;
use vstd::string::*;

use crate::text::same;

verus! {

/// A sink of the graph.
#[derive(Debug)]
pub struct SinkInfo {
    /// The number of its node, which does not outlive the session.
    pub id: u32,
    /// The name of its node, which does.
    pub name: String,
    /// What the user sees.
    pub description: String,
}

/// What a sink holds.
pub struct SinkView {
    pub id: u32,
    pub name: Seq<char>,
    pub description: Seq<char>,
}

impl View for SinkInfo {
    type V = SinkView;

    open spec fn view(&self) -> SinkView {
        SinkView { id: self.id, name: self.name@, description: self.description@ }
    }
}

/// What some sinks hold.
pub open spec fn sink_views(sinks: Seq<SinkInfo>) -> Seq<SinkView> {
    Seq::new(sinks.len(), |i: int| sinks[i]@)
}

/// The graph at one moment.
#[derive(Debug)]
pub struct Snapshot {
    pub sinks: Vec<SinkInfo>,
    /// The node name of the default sink.
    pub default_sink: Option<String>,
}

/// The properties of a node that matter here.
pub struct NodeProps<'a> {
    /// `media.class`.
    pub class: Option<&'a str>,
    /// `node.name`.
    pub name: Option<&'a str>,
    /// `node.description`.
    pub description: Option<&'a str>,
    /// `node.nick`.
    pub nick: Option<&'a str>,
}

/// The text, or nothing where it is missing.
pub open spec fn or_empty(s: Option<&str>) -> Seq<char> {
    match s {
        Some(t) => t@,
        None => seq![],
    }
}

/// The node is a sink.
pub open spec fn is_sink(props: NodeProps) -> bool {
    props.class matches Some(c) && c@ == "Audio/Sink"@
}

/// The sink that a node stands for. It is described by its description, its nickname
/// or its name, whichever is there first.
pub open spec fn sink_of(id: u32, props: NodeProps) -> SinkView {
    SinkView {
        id,
        name: or_empty(props.name),
        description: match props.description {
            Some(d) => d@,
            None => match props.nick {
                Some(n) => n@,
                None => or_empty(props.name),
            },
        },
    }
}

impl Snapshot {
    /// No sinks yet.
    pub fn new() -> (r: Snapshot)
        ensures
            r.sinks@.len() == 0,
            r.default_sink is None,
    {
        Snapshot { sinks: Vec::new(), default_sink: None }
    }

    /// A node has been found: it is added where it is a sink.
    pub fn add_node(&mut self, id: u32, props: &NodeProps)
        ensures
            sink_views(final(self).sinks@) == if is_sink(*props) {
                sink_views(old(self).sinks@).push(sink_of(id, *props))
            } else {
                sink_views(old(self).sinks@)
            },
            final(self).default_sink == old(self).default_sink,
    {
        let sink: bool = match props.class {
            Some(c) => same(c, "Audio/Sink"),
            None => false,
        };
        if sink {
            let name: String = match props.name {
                Some(n) => n.to_owned(),
                None => String::new(),
            };
            assert(name@ =~= or_empty(props.name));
            let description: String = match props.description {
                Some(d) => d.to_owned(),
                None => match props.nick {
                    Some(n) => n.to_owned(),
                    None => name.clone(),
                },
            };
            let ghost before = sink_views(self.sinks@);
            self.sinks.push(SinkInfo { id, name, description });
            assert(sink_views(self.sinks@) =~= before.push(sink_of(id, *props)));
        }
    }

    /// A property of the default metadata has been set: `name` is the name in its
    /// value, where there is one. Only the property of the default sink counts.
    pub fn set_property(&mut self, key: Option<&str>, name: Option<String>)
        ensures
            final(self).sinks == old(self).sinks,
            final(self).default_sink == if key matches Some(k) && k@ == "default.audio.sink"@ {
                name
            } else {
                old(self).default_sink
            },
    {
        if let Some(k) = key {
            if same(k, "default.audio.sink") {
                self.default_sink = name;
            }
        }
    }
}

/// Whether a metadata object is the one that holds the choice of devices.
pub fn is_default_metadata(name: Option<&str>) -> (r: bool)
    ensures
        r == (name matches Some(n) && n@ == "default"@),
{
    match name {
        Some(n) => same(n, "default"),
        None => false,
    }
}

/// A hexadecimal digit.
pub open spec fn hex_digit(n: int) -> char {
    if n < 10 {
        ('0' as u32 + n as u32) as char
    } else {
        ('a' as u32 + (n - 10) as u32) as char
    }
}

/// A character of a JSON string: quotes, backslashes and control characters are
/// escaped.
pub open spec fn json_char(c: char) -> Seq<char> {
    let n = c as u32;
    if c == '"' || c == '\\' {
        seq!['\\', c]
    } else if n == 0x08 {
        seq!['\\', 'b']
    } else if n == 0x09 {
        seq!['\\', 't']
    } else if n == 0x0a {
        seq!['\\', 'n']
    } else if n == 0x0c {
        seq!['\\', 'f']
    } else if n == 0x0d {
        seq!['\\', 'r']
    } else if n < 0x20 {
        seq!['\\', 'u', '0', '0', hex_digit(n as int / 16), hex_digit(n as int % 16)]
    } else {
        seq![c]
    }
}

/// The characters of a JSON string between its quotes.
pub open spec fn json_chars(s: Seq<char>) -> Seq<char>
    decreases s.len(),
{
    if s.len() == 0 {
        seq![]
    } else {
        json_chars(s.drop_last()) + json_char(s.last())
    }
}

/// The JSON object that names a node.
pub open spec fn name_object(name: Seq<char>) -> Seq<char> {
    "{\"name\":\""@ + json_chars(name) + "\"}"@
}

/// `serde_json::Value`, an object with the single member `name`, shown in its compact
/// form: quotes, backslashes and control characters of the name are escaped, and
/// nothing else is changed.
#[verifier::external_body]
pub(crate) fn name_json(name: &str) -> (r: String)
    ensures
        r@ == name_object(name@),
{
    let mut object = serde_json::Map::new();
    object.insert("name".to_owned(), serde_json::Value::String(name.to_owned()));
    serde_json::Value::Object(object).to_string()
}

/// The value to write into the metadata to make a node the default sink.
pub fn default_sink_value(node_name: &str) -> (r: String)
    ensures
        r@ == name_object(node_name@),
{
    name_json(node_name)
}

/// The value of a hexadecimal digit.
pub open spec fn hex_value(c: char) -> Option<int> {
    if '0' <= c && c <= '9' {
        Some(c as int - '0' as int)
    } else if 'a' <= c && c <= 'f' {
        Some(c as int - 'a' as int + 10)
    } else if 'A' <= c && c <= 'F' {
        Some(c as int - 'A' as int + 10)
    } else {
        None
    }
}

/// The character of four hexadecimal digits. The halves of a pair of units stand for no
/// character by themselves.
pub open spec fn hex_char(a: char, b: char, c: char, d: char) -> Option<char> {
    match (hex_value(a), hex_value(b), hex_value(c), hex_value(d)) {
        (Some(a), Some(b), Some(c), Some(d)) => {
            let n = ((a * 16 + b) * 16 + c) * 16 + d;
            if 0xd800 <= n && n < 0xe000 {
                None
            } else {
                Some(n as u32 as char)
            }
        },
        _ => None,
    }
}

/// The first character of a JSON string and how many characters it takes up there.
pub open spec fn json_first(s: Seq<char>) -> Option<(char, int)> {
    if s.len() == 0 || s[0] == '"' || (s[0] as u32) < 0x20 {
        None
    } else if s[0] != '\\' {
        Some((s[0], 1))
    } else if s.len() < 2 {
        None
    } else if s[1] == '"' || s[1] == '\\' || s[1] == '/' {
        Some((s[1], 2))
    } else if s[1] == 'b' {
        Some((0x08u32 as char, 2))
    } else if s[1] == 't' {
        Some((0x09u32 as char, 2))
    } else if s[1] == 'n' {
        Some((0x0au32 as char, 2))
    } else if s[1] == 'f' {
        Some((0x0cu32 as char, 2))
    } else if s[1] == 'r' {
        Some((0x0du32 as char, 2))
    } else if s[1] == 'u' && s.len() >= 6 {
        match hex_char(s[2], s[3], s[4], s[5]) {
            Some(c) => Some((c, 6)),
            None => None,
        }
    } else {
        None
    }
}

/// A JSON string, read from behind its opening quote: the text, and what follows its
/// closing quote. None where there is no closing quote, or something else before it that a
/// JSON string does not hold.
pub open spec fn json_text(s: Seq<char>) -> Option<(Seq<char>, Seq<char>)>
    decreases s.len(),
{
    if s.len() > 0 && s[0] == '"' {
        Some((seq![], s.drop_first()))
    } else {
        match json_first(s) {
            Some((c, n)) => match json_text(s.skip(n)) {
                Some((text, rest)) => Some((seq![c] + text, rest)),
                None => None,
            },
            None => None,
        }
    }
}

proof fn lemma_hex(n: u32)
    requires
        n < 0x20,
    ensures
        hex_char('0', '0', hex_digit(n as int / 16), hex_digit(n as int % 16)) == Some(n as char),
{
    let hi: int = n as int / 16;
    let lo: int = n as int % 16;
    assert(hex_value(hex_digit(hi)) == Some(hi));
    assert(hex_value(hex_digit(lo)) == Some(lo));
    assert(hex_value('0') == Some(0int));
}

/// A character is read back from the way it is written.
proof fn lemma_json_char(c: char, rest: Seq<char>)
    ensures
        json_first(json_char(c) + rest) == Some((c, json_char(c).len() as int)),
{
    let s = json_char(c) + rest;
    let n = c as u32;
    assert(forall|i: int| 0 <= i < json_char(c).len() ==> s[i] == json_char(c)[i]);
    if n < 0x20 {
        lemma_hex(n);
    }
}

/// The first character of a text is written first.
proof fn lemma_json_chars_first(s: Seq<char>)
    requires
        s.len() > 0,
    ensures
        json_chars(s) == json_char(s[0]) + json_chars(s.drop_first()),
    decreases s.len(),
{
    if s.len() == 1 {
        assert(s.drop_last() =~= seq![]);
        assert(s.drop_first() =~= seq![]);
        assert(json_chars(s) =~= json_char(s[0]) + json_chars(s.drop_first()));
    } else {
        lemma_json_chars_first(s.drop_last());
        assert(s.drop_last().drop_first() =~= s.drop_first().drop_last());
        assert(s.drop_first().last() == s.last());
        assert(json_chars(s) =~= json_char(s[0]) + json_chars(s.drop_first()));
    }
}

proof fn lemma_json_text(name: Seq<char>, rest: Seq<char>)
    ensures
        json_text(json_chars(name) + seq!['"'] + rest) == Some((name, rest)),
    decreases name.len(),
{
    let s = json_chars(name) + seq!['"'] + rest;
    if name.len() == 0 {
        assert(s[0] == '"');
        assert(s.drop_first() =~= rest);
        assert(name =~= seq![]);
    } else {
        let t = name.drop_first();
        let tail = json_chars(t) + seq!['"'] + rest;
        lemma_json_chars_first(name);
        assert(s =~= json_char(name[0]) + tail);
        lemma_json_char(name[0], tail);
        assert(s.skip(json_char(name[0]).len() as int) =~= tail);
        lemma_json_text(t, rest);
        assert(seq![name[0]] + t =~= name);
    }
}

/// No node name can break out of its JSON string: whoever reads the object stops at the
/// quote that closes the string, gets the name back, and finds the end of the object behind
/// it.
pub proof fn law_name_stays_quoted(name: Seq<char>)
    ensures
        name_object(name).take(9) == "{\"name\":\""@,
        json_text(name_object(name).skip(9)) == Some((name, "}"@)),
{
    reveal_strlit("{\"name\":\"");
    reveal_strlit("\"}");
    reveal_strlit("}");
    assert(name_object(name).take(9) =~= "{\"name\":\""@);
    assert(name_object(name).skip(9) =~= json_chars(name) + seq!['"'] + "}"@);
    lemma_json_text(name, "}"@);
}

/// Whether the default sink could be set: there was a metadata object to write to.
pub fn set_default_outcome(written: usize) -> (r: Result<(), String>)
    ensures
        r is Ok <==> written > 0,
        r matches Err(e) ==> e@
            == "No default-device metadata found (is WirePlumber running?)."@,
{
    if written == 0 {
        Err("No default-device metadata found (is WirePlumber running?).".to_owned())
    } else {
        Ok(())
    }
}

} // verus!
