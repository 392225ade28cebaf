use input_overlay::gif::{gif_step, next_gif_action, open_gif, GifAction, GifEvent, GifFrame};
use input_overlay::server_settings::{needs_rebind, parse_key_whitelist};
use input_overlay::archive::extract_binary_from_zip;
use input_overlay::analog::{DisplayMode, LegendMode};
use input_overlay::blur::box_blur;
use input_overlay::color::{blend_pixel_over, contrast_is_black, parse_hex_rgba};
use input_overlay::fonts::{google_font_url, pick_best_face, symbol_fallback_candidates, system_font_candidates};
use input_overlay::layout::{config_params, parse_tuple, value_to_string, JsonScalar};
use input_overlay::text::{contains_html_tag_start, parse_img_tag, sanitize};
use input_overlay::texture::{decode_texture, has_extension, is_gif, is_video, texture_source, DecodedImage};
use input_overlay::token::{gen_token, startup_token, token_from_seed};
use input_overlay::updater::{
    download_progress, linux_asset_name, parse_ver, select_update, version_not_newer, ReleaseAsset,
    ReleaseInfo,
};
use input_overlay::video::{
    parse_resolution, plan_update, redraw_size, worker_phase, LayoutSource, SourceSettings, WorkerPhase,
};

fn s(v: &str) -> String {
    v.to_string()
}

#[test]
fn display_and_legend_modes() {
    assert_eq!(DisplayMode::parse("percent"), DisplayMode::Percent);
    assert_eq!(DisplayMode::parse("both"), DisplayMode::Both);
    assert_eq!(DisplayMode::parse("fill"), DisplayMode::Fill);
    assert_eq!(DisplayMode::parse("PERCENT"), DisplayMode::Fill);
    assert!(DisplayMode::Fill.show_fill() && !DisplayMode::Fill.show_percent());
    assert!(!DisplayMode::Percent.show_fill() && DisplayMode::Percent.show_percent());
    assert!(DisplayMode::Both.show_fill() && DisplayMode::Both.show_percent());
    assert_eq!(LegendMode::parse("inverting"), LegendMode::Inverting);
    assert_eq!(LegendMode::parse("digital"), LegendMode::Digital);
    assert_eq!(LegendMode::parse(""), LegendMode::Fading);
}

#[test]
fn blur_radius_zero_is_identity() {
    let orig: Vec<u8> = (0..48).map(|i| (i * 5) as u8).collect();
    let mut d = orig.clone();
    box_blur(&mut d, 4, 3, 0);
    assert_eq!(d, orig);
}

#[test]
fn blur_divides_by_the_full_window() {
    let mut d = vec![0u8; 3 * 4];
    d[4] = 90;
    box_blur(&mut d, 3, 1, 1);
    assert_eq!(d[0], 10);
    assert_eq!(d[4], 10);
    assert_eq!(d[8], 10);
    assert_eq!(d[1], 0);
}

#[test]
fn blur_leaves_bytes_past_the_image() {
    let mut d = vec![0u8; 3 * 4];
    d[4] = 90;
    d.extend_from_slice(&[7, 8, 9, 250, 1]);
    box_blur(&mut d, 3, 1, 1);
    assert_eq!(&d[..12], &[10, 0, 0, 0, 10, 0, 0, 0, 10, 0, 0, 0]);
    assert_eq!(&d[12..], &[7, 8, 9, 250, 1]);
}

#[test]
fn blur_radius_wider_than_the_image() {
    let mut d = vec![0u8; 3 * 4];
    d[4] = 90;
    box_blur(&mut d, 3, 1, 1000);
    assert_eq!(d, vec![0u8; 12]);
    let mut e = vec![255u8; 2 * 4];
    box_blur(&mut e, 2, 1, 2);
    // each window holds both pixels: 510 / 5 = 102, then 102 / 5 = 20
    assert_eq!(e, vec![20u8; 8]);
}

#[test]
fn hex_colors() {
    assert_eq!(parse_hex_rgba("#ff8000", 255), (255, 128, 0, 255));
    assert_eq!(parse_hex_rgba("##11223344", 0), (0x11, 0x22, 0x33, 0x44));
    assert_eq!(parse_hex_rgba("#zz", 7), (0, 0, 0, 7));
    assert_eq!(parse_hex_rgba("abc", 9), (0xab, 0, 0, 9));
}

#[test]
fn contrast_choice() {
    assert!(contrast_is_black(255, 255, 255));
    assert!(!contrast_is_black(0, 0, 0));
    assert!(contrast_is_black(0x80, 0, 0));
    assert!(!contrast_is_black(0x7f, 0xff, 0xff));
}

#[test]
fn blending_extremes() {
    let mut px = vec![1, 2, 3, 4, 10, 20, 30, 40, 5, 6, 7, 8];
    blend_pixel_over(&mut px, 4, 200, 100, 50, 255, 0);
    assert_eq!(px, vec![1, 2, 3, 4, 10, 20, 30, 40, 5, 6, 7, 8]);
    blend_pixel_over(&mut px, 4, 200, 100, 50, 255, 255);
    assert_eq!(px, vec![1, 2, 3, 4, 200, 100, 50, 255, 5, 6, 7, 8]);
}

#[test]
fn blending_half_coverage() {
    let mut px = vec![0, 0, 0, 0];
    blend_pixel_over(&mut px, 0, 255, 255, 255, 255, 128);
    assert_eq!(px, vec![128, 128, 128, 128]);
}

#[test]
fn google_fonts() {
    assert_eq!(
        google_font_url("abel"),
        Some("https://fonts.googleapis.com/css2?family=Abel&display=swap")
    );
    assert_eq!(google_font_url("Abel"), None);
    assert_eq!(google_font_url(""), None);
}

#[test]
fn best_face_by_weight_then_upright() {
    let css = "/* latin */ @font-face { font-style: italic; font-weight: 400; src: url(https://f/italic400.woff2) format('woff2'); } \
               @font-face { font-style: normal; font-weight: 700; src: url('https://f/bold.woff2'); } \
               @font-face { font-style: normal; font-weight: 300; src: url(\"https://f/light.woff2\"); }";
    assert_eq!(pick_best_face(css, true), Some(s("https://f/bold.woff2")));
    assert_eq!(pick_best_face(css, false), Some(s("https://f/light.woff2")));
    assert_eq!(pick_best_face("no faces here", false), None);
    assert_eq!(pick_best_face("@font-face { font-weight: 400; }", false), None);
}

#[test]
fn font_candidates() {
    assert_eq!(
        system_font_candidates(true, Some("C:\\Windows")),
        vec![
            s("C:\\Windows\\Fonts\\segoeuib.ttf"),
            s("C:\\Windows\\Fonts\\arialbd.ttf"),
            s("C:\\Windows\\Fonts\\calibrib.ttf"),
            s("C:\\Windows\\Fonts\\tahomabd.ttf"),
        ]
    );
    assert_eq!(system_font_candidates(false, None).len(), 5);
    assert_eq!(
        symbol_fallback_candidates(Some("D:\\W")),
        vec![s("D:\\W\\Fonts\\seguisym.ttf"), s("D:\\W\\Fonts\\seguiemj.ttf")]
    );
    assert_eq!(
        symbol_fallback_candidates(None)[0],
        "/usr/share/fonts/truetype/dejavu/DejaVuSans.ttf"
    );
}

#[test]
fn label_sanitizing() {
    assert_eq!(sanitize("  Shift  "), Some(s("Shift")));
    assert_eq!(sanitize("   "), None);
    assert_eq!(sanitize("<b>x</b>"), None);
    assert_eq!(sanitize("a < b"), Some(s("a < b")));
    assert!(contains_html_tag_start("x<!--"));
    assert!(contains_html_tag_start("</i>"));
    assert!(!contains_html_tag_start("1<2"));
    assert!(!contains_html_tag_start("<"));
}

#[test]
fn img_tags() {
    let tag = parse_img_tag("  <img src=\"https://i/x.png\" style=\"max-width: 40px !important; opacity:0.5\">")
        .unwrap();
    assert_eq!(tag.src, "https://i/x.png");
    assert_eq!(tag.max_width, Some(s("40px")));
    assert_eq!(tag.max_height, None);
    assert_eq!(tag.opacity, Some(s("0.5")));
    assert!(parse_img_tag("<imgsrc='a'>").is_none());
    assert!(parse_img_tag("<img src=''>").is_none());
    assert!(parse_img_tag("<img src = 'a.png'/>").is_some());
    assert!(parse_img_tag("text").is_none());
}

#[test]
fn texture_extensions() {
    assert!(is_video("https://x/clip.MP4?t=1"));
    assert!(is_video("C:/a/b.webm#frag"));
    assert!(!is_video("https://x/mp4"));
    assert!(is_gif("a.GIF"));
    assert!(!is_gif("a.gif.png"));
    assert!(has_extension("x.tar.gz?gz", &["zip", "gz"]));
    assert!(!has_extension("x.png", &[]));
}

#[test]
fn tokens() {
    let a = token_from_seed(42, 7, 16);
    assert_eq!(a.chars().count(), 16);
    assert!(a.chars().all(|c| c.is_ascii_alphanumeric()));
    assert_eq!(a, token_from_seed(42, 7, 16));
    assert_ne!(a, token_from_seed(43, 7, 16));
    assert_eq!(token_from_seed(0, 0, 1), "A");
    let g = gen_token(24, 0);
    assert_eq!(g.len(), 24);
    assert!(g.chars().all(|c| c.is_ascii_alphanumeric()));
    assert_eq!(token_from_seed(1, 2, 0), "");
}

#[test]
fn versions() {
    assert_eq!(parse_ver("v1.2.3"), (1, 2, 3));
    assert_eq!(parse_ver("vv2.10"), (2, 10, 0));
    assert_eq!(parse_ver("1.x.4"), (1, 0, 4));
    assert_eq!(parse_ver("3.4.5.6"), (3, 4, 0));
    assert_eq!(parse_ver(""), (0, 0, 0));
}

fn release(tag: &str, body: Option<&str>) -> ReleaseInfo {
    ReleaseInfo {
        tag_name: s(tag),
        html_url: s("https://gh/rel"),
        body: body.map(s),
        assets: vec![
            ReleaseAsset { name: s("other.zip"), browser_download_url: s("https://gh/other") },
            ReleaseAsset { name: s("app.zip"), browser_download_url: s("https://gh/app") },
        ],
    }
}

#[test]
fn update_selection() {
    let u = select_update(release("v1.3.0", Some("notes")), "1.2.9", &vec![], "app.zip").unwrap();
    assert_eq!(u.version, "1.3.0");
    assert_eq!(u.release_url, "https://gh/rel");
    assert_eq!(u.download_url, "https://gh/app");
    assert_eq!(u.body, "notes");
    let u = select_update(release("v1.3.0", None), "1.2.9", &vec![], "app.zip").unwrap();
    assert_eq!(u.body, "");
    assert!(select_update(release("v1.2.9", None), "1.2.9", &vec![], "app.zip").is_none());
    assert!(select_update(release("v1.3.0", None), "1.2.9", &vec![s("1.3.0")], "app.zip").is_none());
    assert!(select_update(release("v1.3.0", None), "1.2.9", &vec![], "missing.zip").is_none());
}

#[test]
fn progress_and_assets() {
    assert_eq!(download_progress(10, 0), None);
    assert_eq!(download_progress(50, 100), Some(37));
    assert_eq!(download_progress(100, 100), Some(70));
    assert_eq!(linux_asset_name(true), "input-overlay-ws-linux.AppImage");
    assert_eq!(linux_asset_name(false), "input-overlay-ws-linux-binary.zip");
}

#[test]
fn resolutions() {
    assert_eq!(parse_resolution(" 1920 X 1080 "), (1920, 1080));
    assert_eq!(parse_resolution("10x99999"), (64, 7680));
    assert_eq!(parse_resolution("-5x300"), (64, 300));
    assert_eq!(parse_resolution("big"), (512, 512));
    assert_eq!(parse_resolution("axb"), (512, 512));
}

#[test]
fn settings_update_plans() {
    let mut st = SourceSettings::new();
    let p = plan_update(&mut st, "800x600", s(""), s("/cfg.json"), false);
    assert_eq!(p.load, LayoutSource::JsonFile);
    assert!(p.show_default_first);
    assert!(p.resize);
    assert_eq!((st.width, st.height), (800, 600));
    let p = plan_update(&mut st, "800x600", s(""), s("/cfg.json"), false);
    assert_eq!(p.load, LayoutSource::Unchanged);
    assert!(!p.show_default_first && !p.resize);
    let p = plan_update(&mut st, "800x600", s("https://o/?a=1"), s("/cfg.json"), true);
    assert_eq!(p.load, LayoutSource::Link);
    assert!(!p.show_default_first);
    assert_eq!(st.link, "https://o/?a=1");
}

#[test]
fn layout_tuples() {
    let items = vec![
        JsonScalar::Str(s("scroller")),
        JsonScalar::Str(s("M")),
        JsonScalar::Num(s("1")),
        JsonScalar::Bool(true),
        JsonScalar::Num(s("2")),
        JsonScalar::Num(s("3")),
        JsonScalar::Str(s("top")),
    ];
    let t = parse_tuple(&items).unwrap();
    assert_eq!(t.type_, "scroller");
    assert!(t.move_to_top);
    assert_eq!(t.labels, vec![s("M"), s("1"), s("true")]);
    assert_eq!(t.label, None);
    assert_eq!((t.dims_start, t.dims_end), (4, 6));
    assert!(t.keys.is_empty());

    let t = parse_tuple(&vec![JsonScalar::Str(s("key_a|key_b")), JsonScalar::Other]).unwrap();
    assert_eq!(t.label, Some(s("")));
    assert_eq!(t.keys, vec![s("key_a"), s("key_b")]);
    assert_eq!((t.dims_start, t.dims_end), (2, 2));

    let t = parse_tuple(&vec![JsonScalar::Str(s("key_q"))]).unwrap();
    assert_eq!(t.label, Some(s("")));
    assert_eq!((t.dims_start, t.dims_end), (1, 1));

    assert!(parse_tuple(&vec![]).is_none());
}

#[test]
fn history_tuples() {
    let items = vec![
        JsonScalar::Str(s("input_history")),
        JsonScalar::Str(s("key_a,,key_b;1;250;0;1")),
        JsonScalar::Num(s("4")),
    ];
    let t = parse_tuple(&items).unwrap();
    let h = t.history.unwrap();
    assert_eq!(h.tracked_keys, vec![s("key_a"), s("key_b")]);
    assert!(h.vertical);
    assert_eq!(h.scroll_speed_text, Some(s("250")));
    assert!(!h.highlight_overlap);
    assert!(h.reverse_direction);
    assert_eq!((t.dims_start, t.dims_end), (2, 3));
    let t = parse_tuple(&vec![JsonScalar::Str(s("input_history"))]).unwrap();
    let h = t.history.unwrap();
    assert!(h.tracked_keys.is_empty());
    assert_eq!(h.scroll_speed_text, None);
}

#[test]
fn json_config_members() {
    let members = vec![
        (s("activecolor"), JsonScalar::Str(s("#fff"))),
        (s("scale"), JsonScalar::Num(s("120"))),
        (s("boldfont"), JsonScalar::Bool(true)),
        (s("hidemouse"), JsonScalar::Bool(false)),
        (s("keyLayout"), JsonScalar::Str(s("ignored"))),
        (s("nested"), JsonScalar::Other),
    ];
    let p = config_params(&members);
    assert_eq!(p.get("activecolor"), Some(s("#fff")));
    assert_eq!(p.get("scale"), Some(s("120")));
    assert_eq!(p.get("boldfont"), Some(s("1")));
    assert_eq!(p.get("hidemouse"), Some(s("0")));
    assert_eq!(p.get("keyLayout"), None);
    assert_eq!(p.get("nested"), None);
    assert_eq!(value_to_string(&JsonScalar::Bool(false)), "false");
}

#[test]
fn version_order() {
    assert!(version_not_newer((1, 2, 3), (1, 2, 3)));
    assert!(version_not_newer((1, 2, 3), (1, 10, 0)));
    assert!(!version_not_newer((2, 0, 0), (1, 99, 99)));
    assert!(version_not_newer((0, 9, 9), (1, 0, 0)));
    assert!(!version_not_newer((1, 2, 4), (1, 2, 3)));
}

#[test]
fn google_fonts_only_font_families() {
    assert_eq!(google_font_url("User-Agent"), None);
    assert_eq!(
        google_font_url("ubuntu"),
        Some("https://fonts.googleapis.com/css2?family=Ubuntu:ital,wght@0,300;0,400;0,500;0,700;1,300;1,400;1,500;1,700&display=swap")
    );
}

fn build_zip(entries: &[(&str, &[u8])]) -> Vec<u8> {
    let mut w = zip::ZipWriter::new(std::io::Cursor::new(Vec::new()));
    for (name, data) in entries {
        w.start_file(*name, zip::write::SimpleFileOptions::default()).unwrap();
        std::io::Write::write_all(&mut w, data).unwrap();
    }
    w.finish().unwrap().into_inner()
}

#[test]
fn zip_binary_found_by_file_name() {
    let z = build_zip(&[
        ("README.md", b"hello"),
        ("release/input-overlay-ws", b"\x7fELF-binary"),
        ("other/input-overlay-ws", b"second"),
    ]);
    assert_eq!(extract_binary_from_zip(&z, "input-overlay-ws"), Ok(b"\x7fELF-binary".to_vec()));
    assert_eq!(extract_binary_from_zip(&z, "README.md"), Ok(b"hello".to_vec()));
}

#[test]
fn zip_binary_missing() {
    let z = build_zip(&[("input-overlay-ws.txt", b"x"), ("a/input-overlay", b"y")]);
    assert_eq!(
        extract_binary_from_zip(&z, "input-overlay-ws"),
        Err("'input-overlay-ws' not found in zip".to_string())
    );
    let empty = build_zip(&[]);
    assert_eq!(
        extract_binary_from_zip(&empty, "bin"),
        Err("'bin' not found in zip".to_string())
    );
}

#[test]
fn zip_not_an_archive() {
    let r = extract_binary_from_zip(b"definitely not a zip file", "input-overlay-ws");
    assert!(r.is_err());
    assert_ne!(r, Err("'input-overlay-ws' not found in zip".to_string()));
}

#[test]
fn key_whitelist_parsing() {
    assert_eq!(
        parse_key_whitelist(" key_a, key_b ,,\tmouse_left ,  "),
        vec!["key_a".to_string(), "key_b".to_string(), "mouse_left".to_string()]
    );
    assert!(parse_key_whitelist("").is_empty());
    assert!(parse_key_whitelist(" , ,").is_empty());
    assert_eq!(parse_key_whitelist("key w"), vec!["key w".to_string()]);
}

#[test]
fn rebind_on_host_or_port_change() {
    assert!(!needs_rebind("127.0.0.1", 16899, "127.0.0.1", 16899));
    assert!(needs_rebind("127.0.0.1", 16899, "0.0.0.0", 16899));
    assert!(needs_rebind("127.0.0.1", 16899, "127.0.0.1", 16900));
}

#[test]
fn texture_sources() {
    assert_eq!(texture_source("  https://x.example/pad.png "), Some("https://x.example/pad.png".to_string()));
    assert_eq!(texture_source("   "), None);
    assert_eq!(texture_source(" clip.MP4?x=1 "), None);
    assert_eq!(texture_source("/home/u/pad.gif"), Some("/home/u/pad.gif".to_string()));
}

fn png_bytes(w: u32, h: u32, px: Vec<u8>) -> Vec<u8> {
    let img = image::RgbaImage::from_raw(w, h, px).unwrap();
    let mut out = std::io::Cursor::new(Vec::new());
    img.write_to(&mut out, image::ImageFormat::Png).unwrap();
    out.into_inner()
}

#[test]
fn texture_decoding() {
    let px = vec![1, 2, 3, 255, 10, 20, 30, 128];
    let img = decode_texture(&png_bytes(2, 1, px.clone())).unwrap();
    assert_eq!((img.width, img.height), (2, 1));
    assert_eq!(img.pixels, px);
    assert!(decode_texture(b"not an image").is_none());
    assert!(decode_texture(&[]).is_none());
}

fn gif_bytes(frames: &[(u8, u32)]) -> Vec<u8> {
    let mut out = Vec::new();
    {
        let mut enc = image::codecs::gif::GifEncoder::new(&mut out);
        for (shade, ms) in frames {
            let buf = image::RgbaImage::from_pixel(2, 2, image::Rgba([*shade, *shade, *shade, 255]));
            let delay = image::Delay::from_numer_denom_ms(*ms, 1);
            enc.encode_frame(image::Frame::from_parts(buf, 0, 0, delay)).unwrap();
        }
    }
    out
}

fn play(bytes: &[u8]) -> Result<(Vec<u64>, bool), String> {
    let mut frames = open_gif(bytes)?;
    let mut count = 0u32;
    let mut delays = Vec::new();
    loop {
        let (next, action) = next_gif_action(&mut frames, count);
        count = next;
        match action {
            GifAction::Show { image, delay_nanos } => {
                assert_eq!((image.width, image.height), (2, 2));
                delays.push(delay_nanos);
            }
            GifAction::Fail(e) => return Err(e),
            GifAction::Finish { live } => return Ok((delays, live)),
        }
    }
}

#[test]
fn gif_frames_and_liveness() {
    let (delays, live) = play(&gif_bytes(&[(0, 100), (255, 10)])).unwrap();
    assert_eq!(delays, vec![100_000_000, 20_000_000]);
    assert!(live);
    let (delays, live) = play(&gif_bytes(&[(9, 50)])).unwrap();
    assert_eq!(delays, vec![50_000_000]);
    assert!(!live);
    assert!(play(b"GIF? no").is_err());
}

#[test]
fn gif_steps() {
    let img = || DecodedImage { width: 1, height: 1, pixels: vec![0, 0, 0, 0] };
    let frame = |n: u32, d: u32| GifEvent::Frame(GifFrame { image: img(), delay_numer_ms: n, delay_denom_ms: d });
    match gif_step(3, frame(7, 2)) {
        (4, GifAction::Show { delay_nanos, .. }) => assert_eq!(delay_nanos, 20_000_000),
        _ => panic!("expected a frame"),
    }
    match gif_step(0, frame(101, 4)) {
        (1, GifAction::Show { delay_nanos, .. }) => assert_eq!(delay_nanos, 25_250_000),
        _ => panic!("expected a frame"),
    }
    match gif_step(u32::MAX, frame(30, 1)) {
        (0, GifAction::Show { delay_nanos, .. }) => assert_eq!(delay_nanos, 30_000_000),
        _ => panic!("expected a frame"),
    }
    assert!(matches!(gif_step(0, GifEvent::End), (0, GifAction::Fail(m)) if m == "no frames decoded"));
    assert!(matches!(gif_step(1, GifEvent::End), (1, GifAction::Finish { live: false })));
    assert!(matches!(gif_step(2, GifEvent::End), (2, GifAction::Finish { live: true })));
    assert!(matches!(gif_step(2, GifEvent::FrameError("bad".to_string())), (2, GifAction::Fail(m)) if m == "bad"));
}

#[test]
fn render_worker_decisions() {
    assert!(matches!(worker_phase(true, true, true), WorkerPhase::Stop));
    assert!(matches!(worker_phase(false, false, true), WorkerPhase::Idle));
    assert!(matches!(worker_phase(false, true, false), WorkerPhase::Idle));
    assert!(matches!(worker_phase(false, true, true), WorkerPhase::Render));
    assert_eq!(redraw_size(true, false, true, 0, 720), Some((1, 720)));
    assert_eq!(redraw_size(false, true, true, 1280, 0), Some((1280, 1)));
    assert_eq!(redraw_size(false, false, true, 1280, 720), None);
    assert_eq!(redraw_size(true, true, false, 1280, 720), None);
}

#[test]
fn startup_token_kept_or_made() {
    assert_eq!(startup_token("abc123", 0), ("abc123".to_string(), false));
    let (t, made) = startup_token("", 5);
    assert!(made);
    assert_eq!(t.chars().count(), 32);
    assert!(t.chars().all(|c| c.is_ascii_alphanumeric()));
}

#[test]
fn gif_decoder_position_advances() {
    let bytes = gif_bytes(&[(0, 40), (255, 60)]);
    let mut dec = open_gif(&bytes).unwrap();
    let (c1, a1) = next_gif_action(&mut dec, 0);
    assert!(matches!(a1, GifAction::Show { delay_nanos: 40_000_000, .. }));
    let (c2, a2) = next_gif_action(&mut dec, c1);
    assert!(matches!(a2, GifAction::Show { delay_nanos: 60_000_000, .. }));
    let (c3, a3) = next_gif_action(&mut dec, c2);
    assert_eq!(c3, 2);
    assert!(matches!(a3, GifAction::Finish { live: true }));
}
