//! The files of an exported project: the fixed build files, and the crate
//! source and web page filled in from the project's settings.
use crate::codegen::dec;
use crate::strings::{format_radix, push_char};
use crate::text::chars_of;
use vstd::prelude::*;
use vstd::string::*;

verus! {

/// The manifest of an exported project's crate.
pub const CARGO_TOML: &'static str = r#"
[package]
name = "balchug-demo"
version = "0.1.0"
edition = "2024"

[lib]
crate-type = ["cdylib"]

[dependencies]
balchug-common = {path = "../balchug-common"}
balchug-engine = {path = "../balchug-engine"}
wasm-bindgen = "0.2"
web-sys = { version = "0.3", features = ["HtmlCanvasElement", "Window", "Document"] }
"#;

/// The web bundler settings of an exported project.
pub const TRUNK_TOML: &'static str = r#"
[build]
target = "index.html"
release = true
minify-html = "0.15.0"
minify-js = "0.5.6"
"#;

/// The crate source of an exported project, with the fields to fill in written in braces.
pub const LIB_CODE: &'static str = r#"
mod create_atlas;
mod create_scenario;

use balchug_engine::settings::Settings;
use wasm_bindgen::{JsCast, JsValue};
use web_sys::{window, HtmlCanvasElement, Event};

#[wasm_bindgen::prelude::wasm_bindgen(start)]
pub fn run() -> Result<(), JsValue> {
    let window = window().ok_or(JsValue::from_str("No global window found"))?;
    let document = window.document().ok_or(JsValue::from_str("No document found"))?;
    let canvas = document.get_element_by_id("canvas")
        .ok_or(JsValue::from_str("Canvas element not found"))?
        .dyn_into::<HtmlCanvasElement>()?;

    let debug_div = document.get_element_by_id("debug_div");

    let settings = Settings {background_color: [0.0, 0.0, 0.0]};
    let engine = balchug_engine::start_engine(window.clone(), canvas, settings);
    let atlas = create_atlas::create_atlas();
    engine.set_atlas(&format!("assets/atlas-{atlas_hash}.webp"), atlas);
    engine.set_font("assets/font.otf");
    engine.set_scenario(create_scenario::create_animations());

    let on_resize = {
        let engine = engine.clone();
        wasm_bindgen::closure::Closure::wrap(Box::new(move |_| {
            let _rect = engine.resize();
        }) as Box<dyn FnMut(Event)>)
    };
    window.add_event_listener_with_callback("resize", on_resize.as_ref().unchecked_ref())?;
    on_resize.forget();

    let on_interval = {
        let engine = engine.clone();
        let debug_div = debug_div.clone();
        wasm_bindgen::closure::Closure::wrap(Box::new(move |_| {
            if let Some(debug_div) = debug_div.as_ref() {
                let fps = engine.get_fps();
                debug_div.set_inner_html(&format!("{fps}"));
            }
        }) as Box<dyn FnMut(Event)>)
    };
    window.set_interval_with_callback_and_timeout_and_arguments_0(on_interval.as_ref().unchecked_ref(), 500)?;
    on_interval.forget();

    let _rect = engine.resize();
    Ok(())
}"#;

/// The web page of an exported project, with the fields to fill in written in braces.
pub const INDEX_HTML: &'static str = r#"
<!DOCTYPE html>
<html lang="en">
<head>
    <meta charset="UTF-8">
    <meta name="viewport" content="width=device-width, height=device-height, initial-scale=1, maximum-scale=1, user-scalable=0"/>
    <link data-trunk rel="copy-dir" href="./assets"/>
    <title>Balchug demo</title>
    <style>
        body { margin: 0; overflow: hidden; }
        canvas { display: block;  }
    </style>
</head>
<body>
<div style="width: 100vw; height: 100vh;">
    <canvas id="canvas" style="display: block; width: 100%; height: 100%"></canvas>
</div>
<div id="debug_div" style="position: absolute; top: 0; left: 0; padding: 10px; font-family: monospace; color: gray"></div>
</body>
</html>
"#;

/// `s` with every occurrence of `p` replaced by `w`, scanning from the left
/// and going on after each replaced occurrence, as `str::replace` does.
pub open spec fn replaced(s: Seq<char>, p: Seq<char>, w: Seq<char>) -> Seq<char>
    decreases s.len(),
{
    if p.len() == 0 || s.len() < p.len() {
        s
    } else if s.take(p.len() as int) == p {
        w + replaced(s.skip(p.len() as int), p, w)
    } else {
        seq![s[0]] + replaced(s.skip(1), p, w)
    }
}

fn matches_at(s: &Vec<char>, i: usize, p: &Vec<char>) -> (r: bool)
    requires
        i + p.len() <= s.len(),
    ensures
        r == (s@.subrange(i as int, i + p.len()) == p@),
{
    let mut k: usize = 0;
    while k < p.len()
        invariant
            k <= p.len(),
            i + p.len() <= s.len(),
            forall|j: int| 0 <= j < k ==> s@[i + j] == p@[j],
        decreases p.len() - k,
    {
        if s[i + k] != p[k] {
            assert(s@.subrange(i as int, i + p.len())[k as int] != p@[k as int]);
            return false;
        }
        k = k + 1;
    }
    assert(s@.subrange(i as int, i + p.len()) =~= p@);
    true
}

/// Replaces every occurrence of `pattern` in `s` by `with` (see `replaced`).
pub fn replace_all(s: &str, pattern: &str, with: &str) -> (r: String)
    requires
        pattern@.len() > 0,
    ensures
        r@ == replaced(s@, pattern@, with@),
{
    let cs = chars_of(s);
    let ps = chars_of(pattern);
    let n = cs.len();
    let m = ps.len();
    let mut out = String::new();
    let mut i: usize = 0;
    proof {
        assert(s@.skip(0) =~= s@);
        assert(out@ + replaced(s@, pattern@, with@) =~= replaced(s@, pattern@, with@));
    }
    while i < n
        invariant
            cs@ == s@,
            ps@ == pattern@,
            n == cs.len(),
            m == ps.len(),
            m > 0,
            i <= n,
            out@ + replaced(s@.skip(i as int), pattern@, with@) == replaced(s@, pattern@, with@),
        decreases n - i,
    {
        let ghost rest = s@.skip(i as int);
        if m <= n - i && matches_at(&cs, i, &ps) {
            proof {
                assert(rest.take(m as int) =~= s@.subrange(i as int, i + m));
                assert(rest.skip(m as int) =~= s@.skip(i + m));
            }
            let ghost before = out@;
            out.append(with);
            proof {
                assert(out@ + replaced(s@.skip(i + m), pattern@, with@) =~= before + replaced(rest, pattern@, with@));
            }
            i = i + m;
        } else {
            proof {
                assert(rest.skip(1) =~= s@.skip(i + 1));
                if m <= n - i {
                    assert(rest.take(m as int) =~= s@.subrange(i as int, i + m));
                }
                assert(rest[0] == cs@[i as int]);
                if rest.len() < m {
                    assert(replaced(rest, pattern@, with@) == rest);
                    assert(replaced(rest.skip(1), pattern@, with@) == rest.skip(1));
                    assert(rest =~= seq![rest[0]] + rest.skip(1));
                }
            }
            let ghost before = out@;
            push_char(&mut out, cs[i]);
            proof {
                assert(out@ + replaced(s@.skip(i + 1), pattern@, with@) =~= before + replaced(rest, pattern@, with@));
            }
            i = i + 1;
        }
    }
    proof {
        assert(s@.skip(n as int) =~= Seq::<char>::empty());
        assert(out@ + Seq::<char>::empty() =~= out@);
    }
    out
}

/// The parts written one after another with `sep` between them.
pub open spec fn joined(parts: Seq<Seq<char>>, sep: Seq<char>) -> Seq<char>
    decreases parts.len(),
{
    if parts.len() == 0 {
        Seq::empty()
    } else if parts.len() == 1 {
        parts[0]
    } else {
        joined(parts.drop_last(), sep) + sep + parts.last()
    }
}

/// The strings' characters.
pub open spec fn views(parts: Seq<String>) -> Seq<Seq<char>> {
    parts.map_values(|p: String| p@)
}

/// The strings joined with `sep` between them, as `[String]::join` does.
pub fn join_with(parts: &[String], sep: &str) -> (r: String)
    ensures
        r@ == joined(views(parts@), sep@),
{
    let mut out = String::new();
    let mut i: usize = 0;
    while i < parts.len()
        invariant
            i <= parts.len(),
            out@ == joined(views(parts@.take(i as int)), sep@),
        decreases parts.len() - i,
    {
        proof {
            let next = views(parts@.take(i + 1));
            assert(next.drop_last() =~= views(parts@.take(i as int)));
            assert(next.last() == parts@[i as int]@);
        }
        if i > 0 {
            out.append(sep);
        }
        out.append(parts[i].as_str());
        i = i + 1;
    }
    assert(parts@.take(i as int) =~= parts@);
    out
}

/// A colour as the exported page and crate write it: `r, g, b` in decimal.
pub open spec fn color_list_chars(c: [u8; 3]) -> Seq<char> {
    dec(c[0] as int) + ", "@ + dec(c[1] as int) + ", "@ + dec(c[2] as int)
}

/// Writes a colour as `r, g, b` in decimal.
pub fn color_list(c: [u8; 3]) -> (r: String)
    ensures
        r@ == color_list_chars(c),
{
    let mut s = format_radix(c[0] as u64, 10);
    s.append(", ");
    let g = format_radix(c[1] as u64, 10);
    s.append(g.as_str());
    s.append(", ");
    let b = format_radix(c[2] as u64, 10);
    s.append(b.as_str());
    s
}

/// The quoted asset path of a subset font: `"assets/<style>-<hash>.otf"`.
pub open spec fn font_entry_chars(style: Seq<char>, hash: Seq<char>) -> Seq<char> {
    "\"assets/"@ + style + "-"@ + hash + ".otf\""@
}

/// Writes the quoted asset path of a subset font.
pub fn font_entry(style: &str, hash: &str) -> (r: String)
    ensures
        r@ == font_entry_chars(style@, hash@),
{
    let mut s = String::new();
    s.append("\"assets/");
    s.append(style);
    s.append("-");
    s.append(hash);
    s.append(".otf\"");
    s
}

/// The crate source of an exported project: `LIB_CODE` with the atlas
/// hash, the background colour, the font list, the viscosity and the
/// inertion filled in, in that order.
pub open spec fn lib_code_chars(
    atlas_hash: Seq<char>,
    color: [u8; 3],
    fonts: Seq<Seq<char>>,
    viscosity: u8,
    inertion: u8,
) -> Seq<char> {
    replaced(
        replaced(
            replaced(
                replaced(
                    replaced(LIB_CODE@, "{atlas_hash}"@, atlas_hash),
                    "{settings.background_color}"@,
                    color_list_chars(color),
                ),
                "{fonts}"@,
                joined(fonts, ","@),
            ),
            "{viscosity}"@,
            dec(viscosity as int),
        ),
        "{inertion}"@,
        dec(inertion as int),
    )
}

/// Fills in the crate source of an exported project (see `lib_code_chars`).
pub fn lib_code(atlas_hash: &str, color: [u8; 3], fonts: &[String], viscosity: u8, inertion: u8) -> (r:
    String)
    ensures
        r@ == lib_code_chars(atlas_hash@, color, views(fonts@), viscosity, inertion),
{
    proof {
        reveal_strlit("{atlas_hash}");
        reveal_strlit("{settings.background_color}");
        reveal_strlit("{fonts}");
        reveal_strlit("{viscosity}");
        reveal_strlit("{inertion}");
    }
    let color_text = color_list(color);
    let font_list = join_with(fonts, ",");
    let v = format_radix(viscosity as u64, 10);
    let i = format_radix(inertion as u64, 10);
    let code = replace_all(LIB_CODE, "{atlas_hash}", atlas_hash);
    let code = replace_all(code.as_str(), "{settings.background_color}", color_text.as_str());
    let code = replace_all(code.as_str(), "{fonts}", font_list.as_str());
    let code = replace_all(code.as_str(), "{viscosity}", v.as_str());
    replace_all(code.as_str(), "{inertion}", i.as_str())
}

/// The web page of an exported project: `INDEX_HTML` with the project name
/// and the background colour filled in.
pub fn index_html(name: &str, color: [u8; 3]) -> (r: String)
    ensures
        r@ == replaced(
            replaced(INDEX_HTML@, "{settings.name}"@, name@),
            "{settings.background_color}"@,
            color_list_chars(color),
        ),
{
    proof {
        reveal_strlit("{settings.name}");
        reveal_strlit("{settings.background_color}");
    }
    let color_text = color_list(color);
    let page = replace_all(INDEX_HTML, "{settings.name}", name);
    replace_all(page.as_str(), "{settings.background_color}", color_text.as_str())
}

} // verus!
