use lit_clock::index::AppState;
use lit_clock::index::Range;
use lit_clock::lookup::normalize_hour;
use lit_clock::lookup::normalize_minute;
use lit_clock::model::ClockEntry;
use lit_clock::render::render_entry;
use lit_clock::text::clean_string;
use lit_clock::text::time_string;
use lit_clock::text::u32_string;

fn quote(time: u32, text: &str) -> ClockEntry {
    ClockEntry {
        time,
        text: text.to_string(),
        author: format!("{}-author", text),
        title: format!("{}-title", text),
        link: format!("http://example.com/{}", text),
    }
}

fn abc_state() -> AppState {
    AppState::new(vec![quote(100, "A"), quote(105, "B"), quote(105, "C")])
}

#[test]
fn end_to_end_example() {
    let st = abc_state();
    assert_eq!(st.time_index[60], Some(Range { min: 0, max: 0 }));
    for s in 61..=64 {
        assert_eq!(st.time_index[s], Some(Range { min: 0, max: 0 }));
    }
    assert_eq!(st.time_index[65], Some(Range { min: 1, max: 2 }));
    for _ in 0..50 {
        let e = st.get_entry(1, 5).unwrap();
        assert!(e.text == "B" || e.text == "C");
        assert_ne!(e.text, "A");
    }
}

#[test]
fn coverage_from_first_populated_slot() {
    let st = abc_state();
    // first populated slot is 60 (1:00); everything from there on is filled
    for s in 0..60 {
        assert_eq!(st.time_index[s], None);
    }
    for s in 60..780 {
        assert!(st.time_index[s].is_some());
    }
}

#[test]
fn exactness_of_populated_slots() {
    let st = AppState::new(vec![
        quote(203, "a"),
        quote(203, "b"),
        quote(203, "c"),
        quote(204, "d"),
    ]);
    // 2:03 is slot 123, covering exactly positions 0..=2; 2:04 exactly 3
    assert_eq!(st.time_index[123], Some(Range { min: 0, max: 2 }));
    assert_eq!(st.time_index[124], Some(Range { min: 3, max: 3 }));
}

#[test]
fn gap_propagates_from_preceding_slot() {
    let st = abc_state();
    // slots 61..=64 sit in the gap between 1:00 and 1:05: each holds the
    // bucket of the preceding populated slot, not the following one
    for s in 61..=64 {
        assert_eq!(st.time_index[s], st.time_index[60]);
        assert_ne!(st.time_index[s], st.time_index[65]);
    }
}

#[test]
fn tail_slots_inherit_last_bucket() {
    let st = abc_state();
    // slots after the last populated one forward-fill from it
    assert_eq!(st.time_index[779], st.time_index[65]);
    let e = st.get_entry(12, 59).unwrap();
    assert!(e.text == "B" || e.text == "C");
}

#[test]
fn singleton_bucket_is_deterministic() {
    let st = abc_state();
    for _ in 0..20 {
        let e = st.get_entry(1, 3).unwrap();
        assert_eq!(e.text, "A");
        assert_eq!(e.time, 100);
    }
}

#[test]
fn random_pick_stays_in_bucket_and_reaches_all() {
    let st = abc_state();
    let mut seen_b = false;
    let mut seen_c = false;
    for _ in 0..300 {
        let e = st.get_entry(1, 5).unwrap();
        assert!(e.text == "B" || e.text == "C");
        seen_b = seen_b || e.text == "B";
        seen_c = seen_c || e.text == "C";
    }
    assert!(seen_b && seen_c);
}

#[test]
fn hour_normalization() {
    assert_eq!(normalize_hour(0), 12);
    for h in 1..=12 {
        assert_eq!(normalize_hour(h), h);
    }
    assert_eq!(normalize_hour(13), 1);
    assert_eq!(normalize_hour(25), 1);
    // multiples of 12 above the face display as 12, the same as hour 0
    assert_eq!(normalize_hour(24), 12);
    assert_eq!(normalize_hour(36), 12);
}

#[test]
fn minute_normalization() {
    assert_eq!(normalize_minute(0), 0);
    assert_eq!(normalize_minute(59), 59);
    assert_eq!(normalize_minute(60), 0);
    assert_eq!(normalize_minute(75), 15);
}

#[test]
fn normalized_lookup_agrees_with_plain_one() {
    let st = abc_state();
    let a = st.get_entry(13, 63).unwrap();
    assert_eq!(a.text, "A");
    let b = st.get_entry(1, 3).unwrap();
    assert_eq!(b.text, a.text);
}

#[test]
fn empty_bucket_yields_no_data() {
    let st = AppState::new(vec![quote(105, "B")]);
    // slots before the first populated one answer "no data", not a crash
    assert!(st.get_entry(1, 0).is_none());
    assert!(st.get_entry(1, 4).is_none());
    assert_eq!(st.get_entry(1, 5).unwrap().text, "B");
}

#[test]
fn empty_store_always_answers_no_data() {
    let st = AppState::new(vec![]);
    assert!(st.get_entry(1, 0).is_none());
    assert!(st.get_entry(12, 59).is_none());
    assert!(st.get_entry(0, 0).is_none());
}

#[test]
fn clean_string_sanitizes() {
    let s = String::from("a\nb\rc\"d\\e_f");
    assert_eq!(clean_string(&s), "a b cdef");
    assert_eq!(clean_string(&String::from("")), "");
    assert_eq!(clean_string(&String::from("plain")), "plain");
}

#[test]
fn decimal_rendering() {
    assert_eq!(u32_string(0), "0");
    assert_eq!(u32_string(7), "7");
    assert_eq!(u32_string(10), "10");
    assert_eq!(u32_string(1500), "1500");
    assert_eq!(time_string(9, 5), "9:5");
    assert_eq!(time_string(12, 59), "12:59");
}

#[test]
fn render_substitutes_all_placeholders() {
    let e = ClockEntry {
        time: 905,
        text: String::from("line1\nline2"),
        author: String::from("Jane_Doe"),
        title: String::from("A \"Book\""),
        link: String::from("http://x"),
    };
    let template = "{{author}}|{{title}}|{{link}}|{{paragraph}}|{{time}}";
    let html = render_entry(template, &e, 9, 5);
    assert_eq!(html, "JaneDoe|A Book|http://x|line1 line2|9:5");
}

#[test]
fn get_html_renders_the_looked_up_quote() {
    let st = AppState::new(vec![quote(100, "A")]);
    let template = "<p>{{paragraph}} ({{time}})</p>";
    let html = st.get_html(template, 1, 0).unwrap();
    assert_eq!(html, "<p>A (1:0)</p>");
    let st2 = AppState::new(vec![quote(105, "B")]);
    assert!(st2.get_html(template, 1, 0).is_none());
}
