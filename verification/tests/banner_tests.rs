use whcanrc_assisted_listening::banner::{banner, listen_url, qr_banner, QR_TEXT_LIMIT};

#[test]
fn url_names_host_and_port() {
    assert_eq!(listen_url(Some("192.168.1.20".to_string()), 8080), "https://192.168.1.20:8080");
    assert_eq!(listen_url(None, 0), "https://localhost:0");
}

#[test]
fn banner_has_the_url_below() {
    assert_eq!(banner("##\n##", "https://x"), "\n##\n##\n  https://x\n");
}

#[test]
fn url_is_drawn_as_a_square_with_a_border() {
    let url = "https://192.168.1.20:8080";
    let text = qr_banner(url).unwrap();
    let lines: Vec<&str> = text.split('\n').collect();
    // An empty line, the drawing, the address, and the end
    assert_eq!(lines[0], "");
    assert_eq!(lines[lines.len() - 2], format!("  {}", url));
    assert_eq!(lines[lines.len() - 1], "");
    let drawing = &lines[1..lines.len() - 2];
    let side = qrcode::QrCode::new(url.as_bytes()).unwrap().width();
    assert_eq!(drawing.len(), side + 8);
    let colors = qrcode::QrCode::new(url.as_bytes()).unwrap().to_colors();
    for (y, line) in drawing.iter().enumerate() {
        let chars: Vec<char> = line.chars().collect();
        assert_eq!(chars.len(), 2 * (side + 8));
        for (x, c) in chars.iter().enumerate() {
            let inside = (4..side + 4).contains(&y) && (4..side + 4).contains(&(x / 2));
            let dark = inside && colors[(y - 4) * side + x / 2 - 4] == qrcode::Color::Dark;
            assert_eq!(*c, if dark { '\u{2588}' } else { ' ' });
        }
    }
}

#[test]
fn longest_addresses_are_drawn() {
    let longest_ip = "ffff:ffff:ffff:ffff:ffff:ffff:255.255.255.255".to_string();
    let url = listen_url(Some(longest_ip), 65535);
    assert!(url.chars().count() <= QR_TEXT_LIMIT);
    assert!(qr_banner(&url).is_some());
    // The most bytes that a text of this length has
    assert!(qr_banner(&"\u{10ffff}".repeat(QR_TEXT_LIMIT)).is_some());
    let widest = qrcode::QrCode::new("\u{10ffff}".repeat(QR_TEXT_LIMIT)).unwrap();
    assert!(widest.width() <= 65);
}
