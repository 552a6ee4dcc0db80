use cpucat::colorize::{is_blank, Colorizer, LineOutput};
use cpucat::resample::resample;
use cpucat::sampler::{keep_sampling, Publish};

fn blend_f32(left: f32, right: f32, num: usize, den: usize) -> f32 {
    let fract = num as f32 / den as f32;
    left * (1.0 - fract) + right * fract
}

fn chars(s: &str) -> Vec<char> {
    s.chars().collect()
}

#[test]
fn readings_before_a_six_character_line() {
    let mut colorizer = Colorizer::new(10.0f32);
    let line = chars("abcdef");
    let out = colorizer.color_line(&line, vec![10.0, 20.0, 30.0], &blend_f32);
    let expected = resample(vec![10.0, 10.0, 20.0, 30.0], 6, &blend_f32);
    match out {
        LineOutput::Colored(pairs) => {
            assert_eq!(pairs.len(), 6);
            assert_eq!(pairs[0].1, 10.0);
            assert_eq!(pairs[5].1, 30.0);
            let written: Vec<char> = pairs.iter().map(|p| p.0).collect();
            assert_eq!(written, line);
            let loads: Vec<f32> = pairs.iter().map(|p| p.1).collect();
            assert_eq!(loads, expected);
        }
        LineOutput::Plain => panic!("expected a colored line"),
    }
    assert_eq!(colorizer.last_load(), 30.0);
}

#[test]
fn batch_starts_with_carried_load() {
    let mut colorizer = Colorizer::new(0.0f32);
    let out = colorizer.color_line(&chars("xy\n"), vec![40.0], &blend_f32);
    match out {
        LineOutput::Colored(pairs) => {
            let loads: Vec<f32> = pairs.iter().map(|p| p.1).collect();
            assert_eq!(loads, vec![0.0, 20.0, 40.0]);
            assert_eq!(pairs[2].0, '\n');
        }
        LineOutput::Plain => panic!("expected a colored line"),
    }
    assert_eq!(colorizer.last_load(), 40.0);
}

#[test]
fn quiet_lines_pass_through() {
    let mut colorizer = Colorizer::new(5.0f32);
    let first = colorizer.color_line(&chars("first line\n"), vec![50.0, 60.0], &blend_f32);
    assert!(matches!(first, LineOutput::Colored(_)));
    assert_eq!(colorizer.last_load(), 60.0);
    let second = colorizer.color_line(&chars("second line\n"), vec![], &blend_f32);
    assert!(matches!(second, LineOutput::Plain));
    assert_eq!(colorizer.last_load(), 60.0);
    let third = colorizer.color_line(&chars("third line\n"), vec![], &blend_f32);
    assert!(matches!(third, LineOutput::Plain));
    assert_eq!(colorizer.last_load(), 60.0);
}

#[test]
fn blank_line_keeps_carried_load() {
    let mut colorizer = Colorizer::new(12.0f32);
    let out = colorizer.color_line(&chars(" \t \n"), vec![70.0, 80.0], &blend_f32);
    assert!(matches!(out, LineOutput::Plain));
    assert_eq!(colorizer.last_load(), 12.0);
    let empty = colorizer.color_line(&chars(""), vec![90.0], &blend_f32);
    assert!(matches!(empty, LineOutput::Plain));
    assert_eq!(colorizer.last_load(), 12.0);
}

#[test]
fn blank_detection() {
    assert!(is_blank(&chars("")));
    assert!(is_blank(&chars("  \t\r\n")));
    assert!(is_blank(&chars("\u{a0}\u{3000}")));
    assert!(!is_blank(&chars("  x  ")));
    assert!(!is_blank(&chars("\n.")));
}

#[test]
fn one_character_line_takes_carried_load() {
    let mut colorizer = Colorizer::new(25.0f32);
    match colorizer.color_line(&chars("!"), vec![75.0, 100.0], &blend_f32) {
        LineOutput::Colored(pairs) => assert_eq!(pairs, vec![('!', 25.0)]),
        LineOutput::Plain => panic!("expected a colored line"),
    }
    assert_eq!(colorizer.last_load(), 100.0);
}

#[test]
fn sampler_stops_only_on_disconnect() {
    assert!(keep_sampling(&Publish::Sent));
    assert!(keep_sampling(&Publish::Full));
    assert!(!keep_sampling(&Publish::Disconnected));
}

#[test]
fn nonblank_line_follows_readings() {
    let mut colorizer = Colorizer::new(50.0f32);
    let line = chars("ab\n");
    assert!(matches!(colorizer.color_nonblank_line(&line, vec![], &blend_f32), LineOutput::Plain));
    assert_eq!(colorizer.last_load(), 50.0);
    match colorizer.color_nonblank_line(&line, vec![70.0, 90.0], &blend_f32) {
        LineOutput::Colored(pairs) => {
            assert_eq!(pairs, vec![('a', 50.0), ('b', 70.0), ('\n', 90.0)]);
        }
        LineOutput::Plain => panic!("expected a colored line"),
    }
    assert_eq!(colorizer.last_load(), 90.0);
}

#[test]
fn shrinking_many_readings_onto_a_short_line() {
    let mut colorizer = Colorizer::new(0.0f32);
    let readings = vec![10.0, 20.0, 30.0, 40.0, 50.0, 60.0, 70.0, 80.0];
    match colorizer.color_line(&chars("ok\n"), readings, &blend_f32) {
        LineOutput::Colored(pairs) => {
            // batch of nine values, cursor step 4: indices 0, 4 and 8
            assert_eq!(pairs, vec![('o', 0.0), ('k', 40.0), ('\n', 80.0)]);
        }
        LineOutput::Plain => panic!("expected a colored line"),
    }
    assert_eq!(colorizer.last_load(), 80.0);
}
