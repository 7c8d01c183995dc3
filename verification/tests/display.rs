use rmdev::command::clear::ScanRow;
use rmdev::human::{human_size, hundredths};
use rmdev::scan_category::ScanCate;

fn through_float(size: u64) -> String {
    format!("{:.2}GB", (size as f64) / 1024.0 / 1024.0 / 1024.0)
}

#[test]
fn size_of_zero() {
    assert_eq!(human_size(0), "0.00GB");
}

#[test]
fn size_of_one_unit() {
    assert_eq!(human_size(1024 * 1024 * 1024), "1.00GB");
    assert_eq!(hundredths(1024 * 1024 * 1024), 100);
}

#[test]
fn size_of_one_and_a_half_units() {
    assert_eq!(human_size(1610612736), "1.50GB");
}

#[test]
fn size_tie_goes_to_even_hundredth() {
    // 0.125 and 0.375 units lie half way between two hundredths.
    assert_eq!(human_size(134217728), "0.12GB");
    assert_eq!(human_size(402653184), "0.38GB");
}

#[test]
fn size_of_largest_count() {
    assert_eq!(human_size(u64::MAX), "17179869184.00GB");
}

#[test]
fn size_agrees_with_float_formatting() {
    let mut samples: Vec<u64> = vec![
        0,
        1,
        5368709,
        5368710,
        10737418,
        134217727,
        134217728,
        134217729,
        402653184,
        1073741823,
        1073741824,
        1073741825,
        9007199254740991,
        9007199254740992,
        9007199254740993,
        9007199254740994,
        9007199254740995,
        18014398509481983,
        18014398509481985,
        u64::MAX - 1,
        u64::MAX,
    ];
    let mut x: u64 = 88172645463325252;
    for _ in 0..20000 {
        x ^= x << 13;
        x ^= x >> 7;
        x ^= x << 17;
        samples.push(x);
        samples.push(x >> 11);
        samples.push(x >> 30);
        samples.push(x >> 40);
    }
    for k in 0..2000u64 {
        samples.push(k * 134217728);
        samples.push(k * 134217728 + 1);
        samples.push((k * 134217728).wrapping_sub(1));
    }
    for size in samples {
        assert_eq!(human_size(size), through_float(size), "size {}", size);
    }
}

#[test]
fn row_cells() {
    let row = ScanRow {
        path: "/r/a \"b\"".to_string(),
        project: "a \"b\"".to_string(),
        cate: ScanCate::Cargo,
        size: 1610612736,
    };
    let cells = row.ref_data();
    assert_eq!(cells[0], "a \"b\"");
    assert_eq!(cells[1], "Cargo");
    assert_eq!(cells[2], "1.50GB");
    assert_eq!(cells[3], "\"/r/a \\\"b\\\"\"");
}

#[test]
fn row_headings() {
    assert_eq!(ScanRow::ref_head(), ["Project", "Cate", "Size", "Path"]);
}
