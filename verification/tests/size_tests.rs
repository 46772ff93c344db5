use treesnap_core::format_bytes;

/// Rendering through the standard float formatter, the behaviour the
/// integer implementation has to match.
fn float_rendering(bytes: u64) -> String {
    if bytes < 1024 {
        format!("{} B", bytes)
    } else if bytes < 1024 * 1024 {
        format!("{:.1} KB", bytes as f64 / 1024.0)
    } else if bytes < 1024 * 1024 * 1024 {
        format!("{:.1} MB", bytes as f64 / 1024.0 / 1024.0)
    } else {
        format!("{:.2} GB", bytes as f64 / 1024.0 / 1024.0 / 1024.0)
    }
}

#[test]
fn format_bytes_small_values() {
    assert_eq!(format_bytes(0), "0 B");
    assert_eq!(format_bytes(1), "1 B");
    assert_eq!(format_bytes(1023), "1023 B");
}

#[test]
fn format_bytes_unit_boundaries() {
    assert_eq!(format_bytes(1024), "1.0 KB");
    assert_eq!(format_bytes(1536), "1.5 KB");
    assert_eq!(format_bytes(1024 * 1024 - 1), "1024.0 KB");
    assert_eq!(format_bytes(1024 * 1024), "1.0 MB");
    assert_eq!(format_bytes(1024 * 1024 * 1024 - 1), "1024.0 MB");
    assert_eq!(format_bytes(1024 * 1024 * 1024), "1.00 GB");
    assert_eq!(format_bytes(5 * 1024 * 1024 * 1024 / 4), "1.25 GB");
}

#[test]
fn format_bytes_ties_round_to_even() {
    // 1280 bytes is exactly 1.25 KiB
    assert_eq!(format_bytes(1280), "1.2 KB");
    // 1.75 KiB
    assert_eq!(format_bytes(1792), "1.8 KB");
}

#[test]
fn format_bytes_huge_values() {
    assert_eq!(format_bytes(u64::MAX), "17179869184.00 GB");
    assert_eq!(format_bytes(u64::MAX), float_rendering(u64::MAX));
}

#[test]
fn format_bytes_matches_float_rendering() {
    let mut samples: Vec<u64> = Vec::new();
    for b in 0..5000u64 {
        samples.push(b);
    }
    let mut x: u64 = 0x9E37_79B9_7F4A_7C15;
    for _ in 0..200_000 {
        x ^= x << 13;
        x ^= x >> 7;
        x ^= x << 17;
        let shift = (x % 64) as u32;
        samples.push(x >> shift);
    }
    for k in 10..64u32 {
        let p = 1u64 << k;
        for d in 0..4u64 {
            samples.push(p.wrapping_add(d));
            samples.push(p.wrapping_sub(d));
        }
    }
    // values just around ties of the hundredths of a GiB, past 2^53
    for j in 0..2000u64 {
        let tie = (25 * (2 * j + 1)) << 27;
        for big in [0u64, 1 << 53, 1 << 60] {
            let t = tie.wrapping_add(big);
            samples.push(t);
            samples.push(t.wrapping_sub(1));
            samples.push(t.wrapping_add(1));
        }
    }
    for b in samples {
        assert_eq!(format_bytes(b), float_rendering(b), "bytes = {}", b);
    }
}
