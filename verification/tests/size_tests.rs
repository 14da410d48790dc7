use ue_trim::size::format_size;

const KB: u64 = 1024;
const MB: u64 = KB * 1024;
const GB: u64 = MB * 1024;

/// What the size renders as when the quotient is formatted in double precision.
fn rendered_with_doubles(bytes: u64) -> String {
    if bytes >= GB {
        format!("{:.2} ГБ", bytes as f64 / GB as f64)
    } else if bytes >= MB {
        format!("{:.1} МБ", bytes as f64 / MB as f64)
    } else if bytes >= KB {
        format!("{:.0} КБ", bytes as f64 / KB as f64)
    } else {
        format!("{} Б", bytes)
    }
}

#[test]
fn format_size_bytes() {
    assert_eq!(format_size(0), "0 Б");
    assert_eq!(format_size(1), "1 Б");
    assert_eq!(format_size(1023), "1023 Б");
}

#[test]
fn format_size_kibibytes() {
    assert_eq!(format_size(1024), "1 КБ");
    assert_eq!(format_size(1536), "2 КБ");
    assert_eq!(format_size(2560), "2 КБ");
    assert_eq!(format_size(3584), "4 КБ");
    assert_eq!(format_size(MB - 1), "1024 КБ");
}

#[test]
fn format_size_mebibytes() {
    assert_eq!(format_size(MB), "1.0 МБ");
    assert_eq!(format_size(MB + MB / 2), "1.5 МБ");
    assert_eq!(format_size(MB + MB / 20), "1.0 МБ");
    assert_eq!(format_size(MB + 3 * MB / 20), "1.1 МБ");
    assert_eq!(format_size(MB + MB / 4), "1.2 МБ");
    assert_eq!(format_size(MB + 3 * MB / 4), "1.8 МБ");
    assert_eq!(format_size(GB - 1), "1024.0 МБ");
}

#[test]
fn format_size_gibibytes() {
    assert_eq!(format_size(GB), "1.00 ГБ");
    assert_eq!(format_size(GB + GB / 8), "1.12 ГБ");
    assert_eq!(format_size(GB + 3 * GB / 8), "1.38 ГБ");
    assert_eq!(format_size(59 * GB + GB / 4), "59.25 ГБ");
    assert_eq!(format_size(u64::MAX), "17179869184.00 ГБ");
}

#[test]
fn format_size_agrees_with_double_formatting() {
    let mut values: Vec<u64> = vec![
        0, 1, 511, 512, 1023, 1024, 1025, 1535, 1536, 1537, 2559, 2560, 2561,
        MB - 512, MB - 1, MB, MB + 1, GB - 1, GB, GB + 1,
        GB + GB / 8, GB + 3 * GB / 8, GB + 5 * GB / 8, 2 * GB + GB / 8,
        (1u64 << 53) - 1, 1u64 << 53, (1u64 << 53) + 1, (1u64 << 53) + 2, (1u64 << 53) + 3,
        (1u64 << 54) + 1, (1u64 << 54) + 2, (1u64 << 54) + 6,
        u64::MAX - 1024, u64::MAX - 1, u64::MAX,
    ];
    let mut x: u64 = 0x9e37_79b9_7f4a_7c15;
    for shift in 0..64 {
        x = x.wrapping_mul(6364136223846793005).wrapping_add(1442695040888963407);
        values.push(x >> shift);
        values.push((x >> shift) & !0x3ff);
        values.push(((x >> shift) & !0xfffff) | 0x80000);
    }
    for k in 0..2000u64 {
        values.push(k * (GB / 800));
        values.push(k * (MB / 80));
        values.push(k * 512);
    }
    for v in values {
        assert_eq!(format_size(v), rendered_with_doubles(v), "size {}", v);
    }
}
