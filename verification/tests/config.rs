use quest_scrcpy::config;
use quest_scrcpy::config::{Config, Crop, CropPreset, FloatTexts};

fn parse(texts: &[String]) -> Vec<Option<u32>> {
    texts.iter().map(|t| t.parse::<f32>().ok().map(f32::to_bits)).collect()
}

fn load(file: &str) -> Config {
    Config::load(file, &parse(&config::float_texts(file)))
}

fn texts(c: &Config) -> FloatTexts {
    let t = |bits: u32| f32::from_bits(bits).to_string();
    FloatTexts {
        lens_k1: t(c.lens_k1),
        lens_k2: t(c.lens_k2),
        rotation_deg: t(c.rotation_deg),
        min_x: t(c.uv.min_x),
        min_y: t(c.uv.min_y),
        max_x: t(c.uv.max_x),
        max_y: t(c.uv.max_y),
    }
}

#[test]
fn names_numbers_by_their_bits() {
    assert_eq!(config::QUARTER, 0.25f32.to_bits());
    assert_eq!(config::HALF, 0.5f32.to_bits());
    assert_eq!(config::THREE_QUARTERS, 0.75f32.to_bits());
    assert_eq!(config::ONE, 1.0f32.to_bits());
    assert_eq!(config::ZERO, 0.0f32.to_bits());
    assert_eq!(config::QUEST3_K1, 0.02f32.to_bits());
    assert_eq!(config::QUEST3_K2, (-0.20f32).to_bits());
    assert_eq!(config::QUEST3_TILT, (-1.0f32).to_bits());
}

#[test]
fn defaults_to_quest3_view() {
    let c = Config::default();
    assert!(c.lens_correct && !c.audio);
    assert_eq!(c.uv, CropPreset::LeftEye.crop());
    assert_eq!((c.display_id, c.max_size, c.bitrate_mbps, c.max_fps), (0, 1920, 16, 0));
    assert!(c.remotes.is_empty());
    assert!(load("").same(&c));
}

#[test]
fn writes_settings_file() {
    let mut c = Config::default();
    c.remotes = vec!["10.0.0.1:5555".to_string(), "b:1".to_string()];
    assert_eq!(
        c.save(&texts(&c)),
        "# quest-scrcpy settings (auto-saved)\n\
         lens_correct=true\n\
         lens_k1=0.02\n\
         lens_k2=-0.2\n\
         rotation_deg=-1\n\
         uv=0,0,0.5,1\n\
         display_id=0\n\
         max_size=1920\n\
         bitrate_mbps=16\n\
         max_fps=0\n\
         audio=false\n\
         remote=10.0.0.1:5555\n\
         remote=b:1\n"
    );
}

#[test]
fn loads_what_was_saved() {
    let c = Config {
        lens_correct: false,
        lens_k1: 0.1f32.to_bits(),
        lens_k2: (-1.5e-7f32).to_bits(),
        rotation_deg: 45.0f32.to_bits(),
        uv: Crop {
            min_x: 0.3333333f32.to_bits(),
            min_y: 0.25f32.to_bits(),
            max_x: 0.9f32.to_bits(),
            max_y: f32::MIN_POSITIVE.to_bits(),
        },
        display_id: u32::MAX,
        max_size: 1,
        bitrate_mbps: 80,
        max_fps: 120,
        audio: true,
        remotes: vec!["a=b:1".to_string(), "ä:2".to_string()],
    };
    assert!(load(&c.save(&texts(&c))).same(&c));
}

#[test]
fn ignores_what_it_cannot_read() {
    let c = load(
        "no entry\r\n lens_k1 = 0.5 \r\nlens_k2=x\nuv=1,2,3\nuv=1,x,2,3,4\nmax_size=-1\n\
         max_fps= 30\naudio=TRUE\nlens_correct=yes\nremote=\nremote=a\nremote= a \nunknown=1",
    );
    assert_eq!(c.lens_k1, 0.5f32.to_bits());
    assert_eq!(c.lens_k2, config::QUEST3_K2);
    // Four of the five numbers could be read.
    assert_eq!(f32::from_bits(c.uv.min_y), 2.0);
    assert_eq!(f32::from_bits(c.uv.max_y), 4.0);
    assert_eq!((c.max_size, c.max_fps), (1920, 30));
    assert!(!c.audio && !c.lens_correct);
    assert_eq!(c.remotes, vec!["a"]);
}

#[test]
fn lists_float_texts_in_order() {
    assert_eq!(
        config::float_texts("uv= 1 ,2\nlens_k2=3\nmax_size=4\nrotation_deg=5"),
        vec!["1", "2", "3", "5"]
    );
}

#[test]
fn tells_settings_apart() {
    let c = Config::default();
    let mut d = c.clone();
    assert!(c.same(&d));
    d.remotes.push("x".to_string());
    assert!(!c.same(&d));
    let mut e = c.clone();
    e.uv = CropPreset::Center.crop();
    assert!(!c.same(&e));
}

#[test]
fn loads_addresses_that_can_be_saved() {
    let c = load("remote= b c \nremote=b c\r\nremote=d\nremote==\nremote=d");
    assert_eq!(c.remotes, vec!["b c", "d", "="]);
    assert!(load(&c.save(&texts(&c))).same(&c));
}

#[test]
fn compares_numbers_as_numbers() {
    let with = |k1: f32| Config { lens_k1: k1.to_bits(), ..Config::default() };
    for (a, b) in [(0.0, -0.0), (1.0, 1.0), (1.0, -1.0), (f32::NAN, f32::NAN), (0.0, f32::NAN)] {
        assert_eq!(with(a).equals(&with(b)), a == b);
    }
    let infinite = with(f32::INFINITY);
    assert!(infinite.equals(&infinite));
    assert!(!infinite.equals(&with(f32::NEG_INFINITY)));
    assert!(with(f32::NAN).same(&with(f32::NAN)) && !with(0.0).same(&with(-0.0)));
    let mut c = with(0.0);
    assert!(c.equals(&with(0.0)));
    c.audio = true;
    assert!(!c.equals(&with(0.0)));
}
