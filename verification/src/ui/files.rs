//! Exporting profiles, pictures of the window, and starting the program.

use vstd::prelude::*;
use vstd::string::*;

use crate::decimal::{all_digits, digits_value};
use crate::profile::{AudioProfile, ProfileView};
use crate::store::{format_of, opt_view, profile_ext, FileFormat};
use crate::text::{alike, alike_chars, chars_of, find, holds, holds_chars, piece, position, same, stands_at, stands_chars, text_of, texts, trim, trimmed};

verus! {

/// `s` with a dash for each colon.
pub open spec fn dashed(s: Seq<char>) -> Seq<char> {
    Seq::new(
        s.len(),
        |i: int|
            if s[i] == ':' {
                '-'
            } else {
                s[i]
            },
    )
}

/// The file name that is offered for an export: from the key of the profile, or from its
/// name where it has none.
pub open spec fn offered_name(p: ProfileView) -> Seq<char> {
    let base = if trim(p.key).len() == 0 {
        p.name
    } else {
        dashed(p.key)
    };
    (if trim(base).len() == 0 {
        "profile"@
    } else {
        base
    }) + "."@ + profile_ext()
}

/// The file name that is offered for an export.
pub fn export_name(profile: &AudioProfile) -> (r: String)
    ensures
        r@ == offered_name(profile@),
{
    let key: Vec<char> = chars_of(&profile.key);
    let mut base: Vec<char> = Vec::new();
    if trimmed(&key).len() == 0 {
        base = chars_of(&profile.name);
    } else {
        for i in 0..key.len()
            invariant
                base@ =~= dashed(key@).take(i as int),
        {
            base.push(
                if key[i] == ':' {
                    '-'
                } else {
                    key[i]
                },
            );
        }
        assert(base@ =~= dashed(key@));
    }
    let mut r: String = if trimmed(&base).len() == 0 {
        "profile".to_owned()
    } else {
        text_of(&base)
    };
    r.append(".");
    r.append("adtuneprofile");
    r
}

/// How a profile is exported.
#[derive(Clone, Copy, Debug, PartialEq, Eq, Structural)]
pub struct ExportPlan {
    pub format: FileFormat,
    /// The extension that the user chose is replaced by the native one.
    pub replace_extension: bool,
}

/// How a profile is exported to a file with the given extension: as text for `.txt`, in
/// the native format for its extensions, and for any other in the native format with the
/// native extension.
pub open spec fn export_of(ext: Option<Seq<char>>) -> ExportPlan {
    match ext {
        Some(e) => if alike(e, "txt"@) {
            ExportPlan { format: FileFormat::ParametricEq, replace_extension: false }
        } else {
            ExportPlan {
                format: FileFormat::Native,
                replace_extension: !(alike(e, "json"@) || alike(e, profile_ext())),
            }
        },
        None => ExportPlan { format: FileFormat::Native, replace_extension: true },
    }
}

/// How a profile is exported to a file with the given extension.
pub fn export_plan(ext: Option<&str>) -> (r: ExportPlan)
    ensures
        r == export_of(opt_view(ext)),
{
    match ext {
        Some(e) => {
            let v: Vec<char> = chars_of(e);
            if alike_chars(&v, "txt") {
                ExportPlan { format: FileFormat::ParametricEq, replace_extension: false }
            } else {
                ExportPlan {
                    format: FileFormat::Native,
                    replace_extension: !(alike_chars(&v, "json") || alike_chars(
                        &v,
                        "adtuneprofile",
                    )),
                }
            }
        },
        None => ExportPlan { format: FileFormat::Native, replace_extension: true },
    }
}

/// An exported file is imported in the format in which it was written.
pub proof fn law_exports_import(ext: Option<Seq<char>>)
    ensures
        ({
            let plan = export_of(ext);
            let written = if plan.replace_extension {
                Some(profile_ext())
            } else {
                ext
            };
            format_of(written) == plan.format
        }),
{
    reveal_strlit("txt");
    reveal_strlit("json");
    reveal_strlit("adtuneprofile");
    match ext {
        Some(e) => {
            if alike(e, "txt"@) {
                assert(e.len() == 3);
            }
        },
        None => {},
    }
    assert(alike(profile_ext(), profile_ext()));
}

/// The whole number that a text stands for, if it fits in 32 bits; it may begin with a
/// plus sign.
pub open spec fn small_number(s: Seq<char>) -> Option<u32> {
    let t = if s.len() > 0 && s[0] == '+' {
        s.drop_first()
    } else {
        s
    };
    if t.len() > 0 && all_digits(t) && digits_value(t) <= u32::MAX {
        Some(digits_value(t) as u32)
    } else {
        None
    }
}

fn read_small(v: &Vec<char>) -> (r: Option<u32>)
    ensures
        r == small_number(v@),
{
    let from: usize = if v.len() > 0 && v[0] == '+' { 1 } else { 0 };
    let ghost t = if v@.len() > 0 && v@[0] == '+' {
        v@.drop_first()
    } else {
        v@
    };
    assert(t =~= v@.skip(from as int));
    if v.len() == from {
        return None;
    }
    let mut n: u64 = 0;
    let mut over: bool = false;
    assert(t.take(0) =~= seq![]);
    for i in from..v.len()
        invariant
            from <= v@.len(),
            t == v@.skip(from as int),
            t == if v@.len() > 0 && v@[0] == '+' {
                v@.drop_first()
            } else {
                v@
            },
            forall|j: int| from <= j < i ==> crate::decimal::digit(#[trigger] v@[j]),
            n <= u32::MAX,
            !over ==> n == digits_value(t.take(i - from)),
            over ==> digits_value(t.take(i - from)) > u32::MAX,
    {
        let c: char = v[i];
        assert(t[i - from] == v@[i as int]);
        if !('0' <= c && c <= '9') {
            assert(!crate::decimal::digit(t[i - from]));
            return None;
        }
        assert(t.take(i + 1 - from).drop_last() =~= t.take(i - from));
        assert(t.take(i + 1 - from).last() == c);
        if !over {
            let next: u64 = n * 10 + (c as u32 - '0' as u32) as u64;
            if next > u32::MAX as u64 {
                over = true;
            } else {
                n = next;
            }
        }
    }
    assert(t.take(t.len() as int) =~= t);
    assert forall|j: int| 0 <= j < t.len() implies crate::decimal::digit(#[trigger] t[j]) by {
        assert(t[j] == v@[from + j]);
    }
    if over {
        None
    } else {
        Some(n as u32)
    }
}

/// The size of a picture: what stands before and after the first `x` of the text, or 980
/// by 660.
pub open spec fn picture_size(text: Option<Seq<char>>) -> (u32, u32) {
    match text {
        Some(s) => {
            let i = position(s, seq!['x']) as int;
            if i < s.len() {
                match (small_number(trim(s.take(i))), small_number(trim(s.skip(i + 1)))) {
                    (Some(w), Some(h)) => (w, h),
                    _ => (980u32, 660u32),
                }
            } else {
                (980u32, 660u32)
            }
        },
        None => (980u32, 660u32),
    }
}

/// The size of a picture of the window.
pub fn shot_size(text: Option<&str>) -> (r: (u32, u32))
    ensures
        r == picture_size(opt_view(text)),
{
    if let Some(s) = text {
        let v: Vec<char> = chars_of(s);
        let cross: [char; 1] = ['x'];
        assert(cross@ =~= seq!['x']);
        let i: usize = find(&v, &cross);
        if i < v.len() {
            assert(v@.subrange(0, i as int) =~= v@.take(i as int));
            assert(v@.subrange(i + 1, v@.len() as int) =~= v@.skip(i + 1));
            let w: Option<u32> = read_small(&trimmed(&piece(&v, 0, i)));
            let h: Option<u32> = read_small(&trimmed(&piece(&v, i + 1, v.len())));
            if let (Some(w), Some(h)) = (w, h) {
                return (w, h);
            }
        }
    }
    (980, 660)
}

/// The bytes of a pixel of 16 bits: its red, green and blue parts, stretched to eight
/// bits by repeating their high bits, and full opacity.
pub open spec fn pixel_bytes(v: u16) -> Seq<u8> {
    let r = v / 2048;
    let g = v / 32 % 64;
    let b = v % 32;
    seq![(r * 8 + r / 4) as u8, (g * 4 + g / 16) as u8, (b * 8 + b / 4) as u8, 255u8]
}

/// The bytes of the first `n` pixels.
pub open spec fn picture_bytes(pixels: Seq<u16>, n: nat) -> Seq<u8>
    decreases n,
{
    if n == 0 {
        seq![]
    } else {
        picture_bytes(pixels, (n - 1) as nat) + pixel_bytes(pixels[n - 1])
    }
}

/// The bytes of a picture whose pixels have 16 bits: five for red, six for green, five
/// for blue.
pub fn rgba_bytes(pixels: &Vec<u16>) -> (r: Vec<u8>)
    ensures
        r@ == picture_bytes(pixels@, pixels@.len()),
{
    let mut out: Vec<u8> = Vec::new();
    assert(out@ =~= picture_bytes(pixels@, 0));
    for i in 0..pixels.len()
        invariant
            out@ == picture_bytes(pixels@, i as nat),
    {
        let v: u16 = pixels[i];
        let r: u16 = v / 2048;
        let g: u16 = v / 32 % 64;
        let b: u16 = v % 32;
        let ghost before = out@;
        out.push((r * 8 + r / 4) as u8);
        out.push((g * 4 + g / 16) as u8);
        out.push((b * 8 + b / 4) as u8);
        out.push(255);
        assert(out@ =~= before + pixel_bytes(v));
    }
    out
}

/// Whether the program is started again with the software renderer: the error says that
/// the graphics card cannot do it, and that renderer is not in use already.
pub fn relaunch_in_software(message: &str, backend: Option<&str>) -> (r: bool)
    ensures
        r == ((holds(message@, "glCreateShader"@) || holds(
            message@,
            "Failed to initialize OpenGL"@,
        )) && !(backend matches Some(b) && holds(b@, "software"@))),
{
    let m: Vec<char> = chars_of(message);
    let missing: bool = holds_chars(&m, &chars_of("glCreateShader")) || holds_chars(
        &m,
        &chars_of("Failed to initialize OpenGL"),
    );
    let software: bool = match backend {
        Some(b) => holds_chars(&chars_of(b), &chars_of("software")),
        None => false,
    };
    missing && !software
}

/// What the elevated helper is asked to do; an endpoint is named, or all of them, or the
/// default one, are meant.
#[derive(Debug)]
pub enum Maintenance {
    Enable(Option<String>),
    Disable(Option<String>),
}

/// The index of the first argument that is `flag`, or the number of arguments.
pub open spec fn flag_index(args: Seq<Seq<char>>, flag: Seq<char>) -> nat
    decreases args.len(),
{
    if args.len() == 0 || args[0] == flag {
        0
    } else {
        1 + flag_index(args.drop_first(), flag)
    }
}

/// The argument after a flag, unless it is another flag.
pub open spec fn flag_value(args: Seq<Seq<char>>, flag: Seq<char>) -> Option<Seq<char>> {
    let i = flag_index(args, flag) as int;
    if i + 1 < args.len() && !stands_at(args[i + 1], "--"@, 0) {
        Some(args[i + 1])
    } else {
        None
    }
}

fn flag_position(args: &Vec<String>, flag: &str) -> (r: usize)
    ensures
        r == flag_index(texts(args@), flag@),
        r <= args@.len(),
{
    let ghost all = texts(args@);
    assert(all.skip(0) =~= all);
    let mut i: usize = 0;
    while i < args.len() && !same(&args[i], flag)
        invariant
            i <= args@.len(),
            all == texts(args@),
            flag_index(all, flag@) == i + flag_index(all.skip(i as int), flag@),
        decreases args@.len() - i,
    {
        assert(all.skip(i as int)[0] == args@[i as int]@);
        assert(all.skip(i as int).drop_first() =~= all.skip(i + 1));
        i = i + 1;
    }
    if i < args.len() {
        assert(all.skip(i as int)[0] == args@[i as int]@);
    }
    i
}

fn value_at(args: &Vec<String>, i: usize) -> (r: Option<String>)
    requires
        i < args@.len(),
    ensures
        (match r {
            Some(s) => Some(s@),
            None => None,
        }) == if i + 1 < args@.len() && !stands_at(texts(args@)[i + 1], "--"@, 0) {
            Some(texts(args@)[i + 1])
        } else {
            None
        },
{
    if args.len() - i > 1 && !stands_chars(&chars_of(&args[i + 1]), &chars_of("--"), 0) {
        Some(args[i + 1].clone())
    } else {
        None
    }
}

/// What the elevated helper is asked to do, if it is: enabling comes before disabling.
pub fn maintenance(args: &Vec<String>) -> (r: Option<Maintenance>)
    ensures
        ({
            let all = texts(args@);
            if flag_index(all, "--enable-apo"@) < all.len() {
                r matches Some(Maintenance::Enable(v)) && crate::ui::editor::opt(v) == flag_value(
                    all,
                    "--enable-apo"@,
                )
            } else if flag_index(all, "--disable-apo"@) < all.len() {
                r matches Some(Maintenance::Disable(v)) && crate::ui::editor::opt(v) == flag_value(
                    all,
                    "--disable-apo"@,
                )
            } else {
                r is None
            }
        }),
{
    let i: usize = flag_position(args, "--enable-apo");
    if i < args.len() {
        return Some(Maintenance::Enable(value_at(args, i)));
    }
    let j: usize = flag_position(args, "--disable-apo");
    if j < args.len() {
        return Some(Maintenance::Disable(value_at(args, j)));
    }
    None
}

} // verus!
