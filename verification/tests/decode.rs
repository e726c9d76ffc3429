use wrowalk::feed::{FeedError, decode_feed};

const HEADER: &str = "_id,Nr_Boczny,Nr_Rej,Brygada,Nazwa_Linii,Ostatnia_Pozycja_Szerokosc,Ostatnia_Pozycja_Dlugosc,Data_Aktualizacji";

#[test]
fn decodes_one_row() {
    let body = format!("{}\nV1,1001,DW111,5,A,51.1,17.0,2024-01-01 12:00:00\n", HEADER);
    let recs = decode_feed(&body).unwrap();
    assert_eq!(recs.len(), 1);
    let r = &recs[0];
    assert_eq!(r.id, "V1");
    assert_eq!(r.fleet_number, "1001");
    assert_eq!(r.registration_number, "DW111");
    assert_eq!(r.brigade, "5");
    assert_eq!(r.line_name, "A");
    assert_eq!(r.latitude_udeg, 51_100_000);
    assert_eq!(r.longitude_udeg, 17_000_000);
    assert_eq!(r.last_update, "2024-01-01 12:00:00");
}

#[test]
fn columns_are_read_by_header_name_not_position() {
    let body = "Nazwa_Linii,_id,Ostatnia_Pozycja_Dlugosc,Ostatnia_Pozycja_Szerokosc,Nr_Boczny,Nr_Rej,Brygada,Data_Aktualizacji\nK,V9,16.9,51.05,7,X,2,now\n";
    let recs = decode_feed(body).unwrap();
    assert_eq!(recs.len(), 1);
    assert_eq!(recs[0].id, "V9");
    assert_eq!(recs[0].line_name, "K");
    assert_eq!(recs[0].latitude_udeg, 51_050_000);
    assert_eq!(recs[0].longitude_udeg, 16_900_000);
}

#[test]
fn empty_body_is_a_decode_error() {
    assert!(matches!(decode_feed(""), Err(FeedError::Decode)));
}

#[test]
fn missing_required_column_is_a_decode_error() {
    let body = "_id,Nr_Boczny,Nr_Rej,Brygada,Ostatnia_Pozycja_Szerokosc,Ostatnia_Pozycja_Dlugosc,Data_Aktualizacji\nV1,1,1,1,51.0,16.0,now\n";
    assert!(matches!(decode_feed(body), Err(FeedError::Decode)));
}

#[test]
fn header_only_gives_empty_batch() {
    let body = format!("{}\n", HEADER);
    assert_eq!(decode_feed(&body).unwrap().len(), 0);
}

#[test]
fn malformed_rows_are_skipped_not_fatal() {
    let body = format!(
        "{}\nV1,1,1,1,A,51.1,17.0,now\nV2,1,1,1,B,not-a-number,17.0,now\nV3,1,too,few\nV4,10\"01,1,1,C,51.2,17.1,now\nV5,1,1,1,D,51.3,17.2,now\n",
        HEADER
    );
    let recs = decode_feed(&body).unwrap();
    assert_eq!(recs.len(), 2);
    assert_eq!(recs[0].id, "V1");
    assert_eq!(recs[1].id, "V5");
}

#[test]
fn quoted_fields_hold_commas_and_escaped_quotes() {
    let body = format!(
        "{}\n\"V,1\",1,1,1,\"line \"\"A\"\"\",51.1,17.0,now\n",
        HEADER
    );
    let recs = decode_feed(&body).unwrap();
    assert_eq!(recs.len(), 1);
    assert_eq!(recs[0].id, "V,1");
    assert_eq!(recs[0].line_name, "line \"A\"");
}

#[test]
fn unterminated_quote_skips_the_row() {
    let body = format!("{}\n\"V1,1,1,1,A,51.1,17.0,now\n", HEADER);
    assert_eq!(decode_feed(&body).unwrap().len(), 0);
}

#[test]
fn crlf_and_blank_lines_are_tolerated() {
    let body = format!("{}\r\n\r\nV1,1,1,1,A,51.1,17.0,now\r\n\r\n", HEADER);
    let recs = decode_feed(&body).unwrap();
    assert_eq!(recs.len(), 1);
    assert_eq!(recs[0].id, "V1");
    assert_eq!(recs[0].last_update, "now");
}

#[test]
fn coordinates_parse_exactly_in_microdegrees() {
    let body = format!(
        "{}\nA1,1,1,1,L,51,17.5,now\nA2,1,1,1,L,51.1234567,-0.5,now\nA3,1,1,1,L,0.0000009,50.000001,now\n",
        HEADER
    );
    let recs = decode_feed(&body).unwrap();
    assert_eq!(recs.len(), 3);
    assert_eq!(recs[0].latitude_udeg, 51_000_000);
    assert_eq!(recs[0].longitude_udeg, 17_500_000);
    // the seventh fractional digit does not count
    assert_eq!(recs[1].latitude_udeg, 51_123_456);
    assert_eq!(recs[1].longitude_udeg, -500_000);
    assert_eq!(recs[2].latitude_udeg, 0);
    assert_eq!(recs[2].longitude_udeg, 50_000_001);
}

#[test]
fn bad_numbers_skip_their_row() {
    // a trailing point, an overlong integer part, an empty field, a double point
    let body = format!(
        "{}\nB1,1,1,1,L,51.,17.0,now\nB2,1,1,1,L,1234567890,17.0,now\nB3,1,1,1,L,,17.0,now\nB4,1,1,1,L,51.1.2,17.0,now\n",
        HEADER
    );
    assert_eq!(decode_feed(&body).unwrap().len(), 0);
}
