//! Devices: which are offered, which is selected, and which identifiers are taken.

use vstd::prelude::*;
use vstd::string::*;

use crate::pipewire::controller::{is_virtual, outputs, socket_of};
use crate::pipewire::paths::{config_of, Environment};
use crate::pipewire::registry::{is_sink, sink_of, NodeProps, SinkView};
use crate::ui::status::{default_index, named_index, picked};
use crate::ui::sys::DeviceView;
use crate::windows::{guid_of, last_index, valid_id};

verus! {

/// What is offered of two lists of sinks is what is offered of each, in order.
pub proof fn law_outputs_parts(
    a: Seq<SinkView>,
    b: Seq<SinkView>,
    default_sink: Option<Seq<char>>,
)
    ensures
        outputs(a + b, default_sink) == outputs(a, default_sink) + outputs(b, default_sink),
    decreases b.len(),
{
    if b.len() == 0 {
        assert(a + b =~= a);
        assert(outputs(a, default_sink) + outputs(b, default_sink) =~= outputs(a, default_sink));
    } else {
        law_outputs_parts(a, b.drop_last(), default_sink);
        assert((a + b).drop_last() =~= a + b.drop_last());
        assert((a + b).last() == b.last());
        assert(outputs(a + b, default_sink) =~= outputs(a, default_sink) + outputs(b, default_sink));
    }
}

/// Every sink is offered, under its name and its description, but for those whose name begins
/// like that of the virtual one; the default one is marked.
pub proof fn law_output(s: SinkView, default_sink: Option<Seq<char>>)
    ensures
        ({
            let own = s.name.len() >= 19 && s.name.take(19) == "effect_input.adtune"@;
            let r = outputs(seq![s], default_sink);
            &&& own ==> r.len() == 0
            &&& !own ==> {
                &&& r.len() == 1
                &&& r[0].node_id == s.id
                &&& r[0].node_name == s.name
                &&& r[0].description == s.description
                &&& r[0].is_default <==> default_sink == Some(s.name)
            }
        }),
{
    reveal_strlit("effect_input.adtune");
    let one = seq![s];
    assert(one.drop_last() =~= Seq::<SinkView>::empty());
    assert(one.last() == s);
    assert(outputs(one.drop_last(), default_sink) =~= seq![]);
    if s.name.len() >= 19 {
        assert(s.name.subrange(0, 19) =~= s.name.take(19));
    }
}

proof fn lemma_named(devices: Seq<DeviceView>, name: Seq<char>)
    ensures
        named_index(devices, name) <= devices.len(),
        named_index(devices, name) < devices.len() ==> devices[named_index(
            devices,
            name,
        ) as int].name == name,
        forall|i: int|
            0 <= i < named_index(devices, name) ==> (#[trigger] devices[i]).name != name,
    decreases devices.len(),
{
    if devices.len() > 0 && devices[0].name != name {
        let rest = devices.drop_first();
        lemma_named(rest, name);
        assert forall|i: int| 0 <= i < named_index(devices, name) implies (#[trigger] devices[i]).name
            != name by {
            if i > 0 {
                assert(devices[i] == rest[i - 1]);
            }
        }
    }
}

proof fn lemma_default(devices: Seq<DeviceView>)
    ensures
        default_index(devices) <= devices.len(),
        default_index(devices) < devices.len() ==> devices[default_index(devices) as int].is_default,
        forall|i: int| 0 <= i < default_index(devices) ==> !(#[trigger] devices[i]).is_default,
    decreases devices.len(),
{
    if devices.len() > 0 && !devices[0].is_default {
        let rest = devices.drop_first();
        lemma_default(rest);
        assert forall|i: int| 0 <= i < default_index(devices) implies !(
        #[trigger] devices[i]).is_default by {
            if i > 0 {
                assert(devices[i] == rest[i - 1]);
            }
        }
    }
}

/// The device that was used last is selected where it is there; else the default one; else the
/// first one.
pub proof fn law_selection(devices: Seq<DeviceView>, saved: Option<Seq<char>>)
    ensures
        ({
            let i = picked(devices, saved);
            let there = saved is Some && exists|k: int|
                0 <= k < devices.len() && (#[trigger] devices[k]).name == saved->0;
            let some_default = exists|k: int|
                0 <= k < devices.len() && (#[trigger] devices[k]).is_default;
            &&& devices.len() == 0 ==> i == -1
            &&& devices.len() > 0 ==> 0 <= i < devices.len()
            &&& there ==> devices[i].name == saved->0
            &&& !there && some_default ==> devices[i].is_default
            &&& !there && !some_default && devices.len() > 0 ==> i == 0
        }),
{
    lemma_default(devices);
    if saved is Some {
        lemma_named(devices, saved->0);
    }
}

/// An identifier is taken exactly where it has 1 to 200 characters, a brace among them, and all
/// of them are hexadecimal digits, braces, dots or dashes.
pub proof fn law_valid_ids(id: Seq<char>)
    ensures
        valid_id(id) <==> 1 <= id.len() <= 200 && id.contains('{') && forall|i: int|
            0 <= i < id.len() ==> {
                let c = #[trigger] id[i];
                ||| ('0' <= c && c <= '9')
                ||| ('a' <= c && c <= 'f')
                ||| ('A' <= c && c <= 'F')
                ||| c == '{'
                ||| c == '}'
                ||| c == '.'
                ||| c == '-'
            },
{
    if valid_id(id) {
        assert forall|i: int| 0 <= i < id.len() implies {
            let c = #[trigger] id[i];
            ||| ('0' <= c && c <= '9')
            ||| ('a' <= c && c <= 'f')
            ||| ('A' <= c && c <= 'F')
            ||| c == '{'
            ||| c == '}'
            ||| c == '.'
            ||| c == '-'
        } by {
            assert(crate::windows::id_char(id[i]));
        }
    }
}

proof fn lemma_last_index(a: Seq<char>, b: Seq<char>)
    requires
        forall|i: int| 0 <= i < b.len() ==> #[trigger] b[i] != '{',
    ensures
        last_index(a + seq!['{'] + b, '{') == a.len(),
    decreases b.len(),
{
    let s = a + seq!['{'] + b;
    if b.len() > 0 {
        assert(s.last() == b[b.len() - 1]);
        assert(s.drop_last() =~= a + seq!['{'] + b.drop_last());
        lemma_last_index(a, b.drop_last());
    } else {
        assert(s.last() == '{');
    }
}

/// An endpoint's key is named by the last braced group of its identifier.
pub proof fn law_key_of_an_endpoint(a: Seq<char>, b: Seq<char>)
    requires
        forall|i: int| 0 <= i < b.len() ==> #[trigger] b[i] != '{',
    ensures
        guid_of(a + seq!['{'] + b) == seq!['{'] + b,
{
    lemma_last_index(a, b);
    assert((a + seq!['{'] + b).skip(a.len() as int) =~= seq!['{'] + b);
}

/// A node is a sink by its class alone. It is known by its name, and described by its description,
/// or by its nickname where it has none, or by its name where it has neither.
pub proof fn law_sinks(id: u32, props: NodeProps)
    ensures
        is_sink(props) <==> props.class is Some && props.class->0@ == "Audio/Sink"@,
        sink_of(id, props).id == id,
        props.name matches Some(n) ==> sink_of(id, props).name == n@,
        props.name is None ==> sink_of(id, props).name.len() == 0,
        props.description matches Some(d) ==> sink_of(id, props).description == d@,
        props.description is None ==> (props.nick matches Some(n) ==> sink_of(id, props).description
            == n@),
        props.description is None && props.nick is None ==> sink_of(id, props).description
            == sink_of(id, props).name,
{
}

/// A target is refused exactly where its description holds the name of the virtual output, or its
/// node has the name of the virtual sink or one that begins with it.
pub proof fn law_refused_targets(description: Seq<char>, name: Seq<char>)
    ensures
        is_virtual(description, name) <==> (exists|a: Seq<char>, b: Seq<char>|
            description == #[trigger] (a + "ADtune Calibrated"@ + b)) || (exists|b: Seq<char>|
            name == #[trigger] ("effect_input.adtune"@ + b)),
{
    crate::laws::text::law_holds(description, "ADtune Calibrated"@);
    let p = "effect_input.adtune"@;
    if crate::text::stands_at(name, p, 0) {
        let b = name.skip(p.len() as int);
        assert(name =~= p + b);
    }
    if exists|b: Seq<char>| name == #[trigger] (p + b) {
        let b = choose|b: Seq<char>| name == #[trigger] (p + b);
        assert(name.subrange(0, p.len() as int) =~= p);
    }
}

/// The server's socket lies in the runtime directory, under the name of the remote or under
/// `pipewire-0`; an absolute name stands for itself. Without a directory there is none.
pub proof fn law_socket(remote: Seq<u8>, dir: Seq<u8>)
    requires
        dir.len() > 0,
        dir.last() != 0x2f,
    ensures
        remote.len() > 0 && remote[0] == 0x2f ==> socket_of(Some(remote), Some(dir)) == Some(remote),
        remote.len() > 0 && remote[0] != 0x2f ==> socket_of(Some(remote), Some(dir)) == Some(
            dir + seq![0x2fu8] + remote,
        ),
        socket_of(Some(remote), None) is None,
        socket_of(None, None) is None,
{
    assert(dir.push(0x2fu8) + remote =~= dir + seq![0x2fu8] + remote);
}

/// The configuration lies below the directory that the environment names, or below the home
/// directory.
pub proof fn law_config_directory(env: Environment)
    ensures
        (env.config_home matches Some(p) && p@.len() > 1 && p@[0] == 0x2f && p@.last() != 0x2f)
            ==> config_of(env) == env.config_home->0@ + seq![0x2fu8] + "adtune".spec_bytes(),
        env.config_home is None && (env.home matches Some(h) && h@.len() > 0 && h@.last() != 0x2f)
            ==> config_of(env) == env.home->0@ + seq![0x2fu8] + ".config".spec_bytes() + seq![0x2fu8]
            + "adtune".spec_bytes(),
{
    reveal_strlit(".config");
    let a = "adtune".spec_bytes();
    let c = ".config".spec_bytes();
    vstd::string::is_ascii_spec_bytes(".config");
    if let Some(p) = env.config_home {
        assert(p@.push(0x2fu8) + a =~= p@ + seq![0x2fu8] + a);
    }
    if let Some(h) = env.home {
        let d = h@.push(0x2fu8) + c;
        assert(d =~= h@ + seq![0x2fu8] + c);
        assert(d.push(0x2fu8) + a =~= h@ + seq![0x2fu8] + c + seq![0x2fu8] + a);
        assert(c.len() > 0);
        assert(d.last() == c.last());
    }
}

} // verus!
