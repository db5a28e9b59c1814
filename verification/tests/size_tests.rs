use d9cker::size::{cmp_cells, parse_size, Size};
use std::cmp::Ordering;

/// The byte count a parsed size denotes, computed the way a float parse of
/// its number times the unit would.
fn bytes(s: &Size) -> f64 {
    let digits: String = s
        .mantissa
        .digits
        .iter()
        .rev()
        .map(|d| char::from(b'0' + *d))
        .collect();
    let digits = if digits.is_empty() {
        "0".to_string()
    } else {
        digits
    };
    let text = if s.frac == 0 {
        digits
    } else {
        let padded = format!("{:0>width$}", digits, width = s.frac + 1);
        let (i, f) = padded.split_at(padded.len() - s.frac);
        format!("{i}.{f}")
    };
    let v: f64 = text.parse().unwrap();
    let v = if s.negative { -v } else { v };
    v * 1024f64.powi(s.unit as i32)
}

fn parsed(s: &str) -> Option<f64> {
    parse_size(s).map(|x| bytes(&x))
}

#[test]
fn parse_size_units() {
    assert_eq!(parsed("6379"), Some(6379.0));
    assert_eq!(parsed("1KB"), Some(1024.0));
    assert_eq!(parsed("119.3MB"), Some(119.3 * 1024.0 * 1024.0));
    assert!(parsed("1.5GB").unwrap() > parsed("900MB").unwrap());
    assert_eq!(parsed("latest"), None);
}

#[test]
fn cmp_size_aware() {
    // GB sorts above MB numerically, not lexically
    assert_eq!(cmp_cells("1.5GB", "900MB"), Ordering::Greater);
    assert_eq!(cmp_cells("119.3MB", "1.5GB"), Ordering::Less);
}

#[test]
fn cmp_text_case_insensitive() {
    assert_eq!(cmp_cells("Redis", "alpine"), Ordering::Greater); // 'r' > 'a'
    assert_eq!(cmp_cells("exited", "running"), Ordering::Less);
}

#[test]
fn sort_orders_indices() {
    // emulate visible_indices sort over a column of size strings
    let col = ["119.3MB", "1.5GB", "12.4MB", "900MB"];
    let mut idx: Vec<usize> = (0..col.len()).collect();
    idx.sort_by(|&i, &j| cmp_cells(col[i], col[j]));
    let sorted: Vec<&str> = idx.iter().map(|&i| col[i]).collect();
    assert_eq!(sorted, ["12.4MB", "119.3MB", "900MB", "1.5GB"]);
}

#[test]
fn parse_size_accepts_every_unit_spelling() {
    assert_eq!(parsed("2k"), Some(2048.0));
    assert_eq!(parsed("2 KiB"), Some(2048.0));
    assert_eq!(parsed(" 3m "), Some(3.0 * 1024.0 * 1024.0));
    assert_eq!(parsed("1gib"), Some(1024.0 * 1024.0 * 1024.0));
    assert_eq!(parsed("1T"), Some(1024f64.powi(4)));
    assert_eq!(parsed("7b"), Some(7.0));
    assert_eq!(parsed("-4KB"), Some(-4096.0));
    assert_eq!(parsed("1PB"), None);
    assert_eq!(parsed("KB"), None);
    assert_eq!(parsed(""), None);
    assert_eq!(parsed("1.2.3MB"), None);
    assert_eq!(parsed(".5KB"), Some(512.0));
    assert_eq!(parsed("5.KB"), Some(5120.0));
    assert_eq!(parsed("+1KB"), Some(1024.0));
    assert_eq!(parsed("."), None);
}

#[test]
fn parse_size_fields() {
    let s = parse_size("119.3MB").unwrap();
    assert!(!s.negative);
    assert_eq!(s.frac, 1);
    assert_eq!(s.unit, 2);
    assert_eq!(s.mantissa.digits, vec![3, 9, 1, 1]);
}

#[test]
fn cmp_cells_equal_sizes_and_text() {
    assert_eq!(cmp_cells("1KB", "1024"), Ordering::Equal);
    assert_eq!(cmp_cells("1.0GB", "1024MB"), Ordering::Equal);
    assert_eq!(cmp_cells("Nginx", "nginx"), Ordering::Equal);
    assert_eq!(cmp_cells("abc", "abd"), Ordering::Less);
}

#[test]
fn cmp_cells_is_antisymmetric_on_samples() {
    let samples = [
        "1.5GB", "900MB", "Redis", "alpine", "", "12", "12.0", "-3KB", "running", "Up 2 hours",
    ];
    for a in samples {
        for b in samples {
            assert_eq!(cmp_cells(a, b), cmp_cells(b, a).reverse(), "{a} vs {b}");
        }
    }
}

#[test]
fn cmp_cells_compares_one_size_with_text_as_text() {
    // "10MB" parses but "web" does not: both compared as lower-case text
    assert_eq!(cmp_cells("10MB", "web"), Ordering::Less);
    assert_eq!(cmp_cells("web", "10MB"), Ordering::Greater);
}

#[test]
fn shown_sizes_read_back() {
    for b in [0i64, 7, 1023] {
        let s = parse_size(&d9cker::docker::human_size(b)).unwrap();
        assert_eq!((s.negative, s.frac, s.unit), (false, 0, 0));
        assert_eq!(bytes(&s), b as f64);
    }
    for b in [1024i64, 1536, 1_000_000, 1_610_612_736, 5 * (1i64 << 40) + 123_456_789, i64::MAX] {
        let shown = d9cker::docker::human_size(b);
        let s = parse_size(&shown).unwrap();
        assert_eq!((s.negative, s.frac), (false, 1));
        let unit = 1024f64.powi(s.unit as i32);
        assert!((bytes(&s) - b as f64).abs() <= 0.05 * unit + 1.0, "{b} shown as {shown}");
    }
}

fn as_double(cell: &str) -> f64 {
    let units = [("TB", 4), ("GB", 3), ("MB", 2), ("KB", 1), ("B", 0)];
    for (u, k) in units {
        if let Some(num) = cell.strip_suffix(u) {
            return num.parse::<f64>().unwrap() * 1024f64.powi(k);
        }
    }
    cell.parse::<f64>().unwrap()
}

#[test]
fn sizes_compare_as_doubles() {
    assert_eq!(cmp_cells("9007199254740993", "9007199254740992"), Ordering::Equal);
    assert_eq!(cmp_cells("9007199254740994", "9007199254740993"), Ordering::Greater);
    assert_eq!(cmp_cells("0.1", "0.1000000000000000055511151231257827"), Ordering::Equal);
    assert_eq!(cmp_cells("-0", "0"), Ordering::Equal);
    assert_eq!(cmp_cells("-0.0KB", "0B"), Ordering::Equal);
    let huge_a = format!("1{}", "0".repeat(400));
    let huge_b = format!("2{}", "0".repeat(400));
    assert_eq!(cmp_cells(&huge_a, &huge_b), Ordering::Equal);
    let tiny = format!("0.{}1", "0".repeat(400));
    assert_eq!(cmp_cells(&tiny, "0"), Ordering::Equal);
    let neg_tiny = format!("-{tiny}");
    assert_eq!(cmp_cells(&neg_tiny, &tiny), Ordering::Equal);
}

#[test]
fn size_order_agrees_with_doubles_on_samples() {
    let samples: Vec<String> = vec![
        "9007199254740993".into(),
        "9007199254740992".into(),
        "9007199254740995".into(),
        "0.1".into(),
        "0.10000000000000001".into(),
        "0.3".into(),
        "1.5GB".into(),
        "1536MB".into(),
        "1610612736".into(),
        "1610612736.0000001".into(),
        "-2KB".into(),
        "-2048".into(),
        "-2047.9999999999999".into(),
        format!("1{}TB", "0".repeat(296)),
        format!("1{}TB", "0".repeat(297)),
        format!("17976931348623157{}", "0".repeat(292)),
        format!("17976931348623159{}", "0".repeat(292)),
        format!("0.{}49406564584124654", "0".repeat(323)),
        format!("0.{}24703282292062328", "0".repeat(323)),
        format!("0.{}24703282292062327", "0".repeat(323)),
        "0".into(),
        "-0.0".into(),
    ];
    for a in &samples {
        for b in &samples {
            let expected = as_double(a).partial_cmp(&as_double(b)).unwrap();
            assert_eq!(cmp_cells(a, b), expected, "{a} vs {b}");
        }
    }
}
