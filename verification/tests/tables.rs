use imp019::data::{
    lines, parse_number, piece_at, piece_or_empty, pieces, read_names, same_text, weighted, AgeData,
    Data, LocData, NickData, Trend,
};

const LOC: &str = "SPR,Springfield,IL,US,114000,EN\r\nMTL,Montreal,QC,CA,1700000,FR\nCDM,Ciudad de Mexico,DF,MX,9200000,ES\nSHE,Shelbyville,IL,US,many,EN";
const NICK: &str = "EN,ES,FR\nBears,Osos,Ours\nKings,Reyes,Rois\nStars,Estrellas\n";

fn data() -> Data {
    Data::new(
        LOC,
        NICK,
        &vec![("US", "Al,3\nBo,1\nnobody\n"), ("MX", "Luis,2\n")],
        &vec![("US", "Smith,5\n")],
        "18,0,1,9\n30,1,2,1\n40,5,1,0\n41,0,0,0\n",
    )
}

#[test]
fn test_abbr() {
    let mut abbr = lines(LOC).into_iter().map(|o| LocData::parse(o).abbr).collect::<Vec<_>>();

    abbr.sort_unstable();

    for idx in 1..abbr.len() {
        assert_ne!(abbr[idx - 1], abbr[idx]);
    }
}

#[test]
fn test_nick() {
    let all = lines("EN,ES,FR\nBears,Osos,Ours\nKings,Reyes,Rois\n");
    let headers = pieces(all[0], ',');
    let nick = all[1..].iter().map(|o| pieces(o, ',')).collect::<Vec<_>>();

    for line in &nick {
        assert_eq!(line.len(), headers.len())
    }

    let mut error = 0;
    for header in 0..headers.len() {
        let mut local = nick.iter().map(|o| o[header]).collect::<Vec<_>>();
        local.sort_unstable();
        for idx in 1..local.len() {
            if local[idx - 1] == local[idx] {
                println!("{}: {}", headers[header], local[idx]);
                error += 1;
            }
        }
    }
    assert_eq!(error, 0, "{} duplicates found.", error);
}

#[test]
fn texts_compare_by_character() {
    assert!(same_text("abc", "abc"));
    assert!(same_text("", ""));
    assert!(!same_text("abc", "abd"));
    assert!(!same_text("abc", "ab"));
    assert!(same_text("Montréal", "Montréal"));
}

#[test]
fn numbers_are_digits_after_an_optional_plus() {
    assert_eq!(parse_number("0"), Some(0));
    assert_eq!(parse_number("114000"), Some(114000));
    assert_eq!(parse_number("+17"), Some(17));
    assert_eq!(parse_number("007"), Some(7));
    assert_eq!(parse_number("4294967295"), Some(u32::MAX));
    assert_eq!(parse_number("4294967296"), None);
    assert_eq!(parse_number("99999999999"), None);
    assert_eq!(parse_number(""), None);
    assert_eq!(parse_number("+"), None);
    assert_eq!(parse_number("-3"), None);
    assert_eq!(parse_number("12a"), None);
    assert_eq!(parse_number(" 12"), None);
    assert_eq!(parse_number("1.5"), None);
    for text in ["0", "42", "+42", "0042", "4294967295", "4294967296", "", "+", "x", "٣"] {
        assert_eq!(parse_number(text), text.parse::<u32>().ok());
    }
}

#[test]
fn a_text_is_cut_at_the_commas() {
    assert_eq!(pieces("a,b,,c", ','), vec!["a", "b", "", "c"]);
    assert_eq!(pieces("", ','), vec![""]);
    assert_eq!(pieces("a,", ','), vec!["a", ""]);
    assert_eq!(pieces(",", ','), vec!["", ""]);
    assert_eq!(piece_at("a,b,,c", ',', 1), Some("b"));
    assert_eq!(piece_at("a,b,,c", ',', 2), Some(""));
    assert_eq!(piece_at("a,b,,c", ',', 3), Some("c"));
    assert_eq!(piece_at("a,b,,c", ',', 4), None);
    assert_eq!(piece_at("", ',', 0), Some(""));
    assert_eq!(piece_at("", ',', 1), None);
    assert_eq!(piece_or_empty("a,b", ',', 7), "");
    assert_eq!(piece_or_empty("é,ü", ',', 1), "ü");
    for text in ["a,b,,c", "", ",", "a,", ",a", "no comma", ",,,"] {
        assert_eq!(pieces(text, ','), text.split(',').collect::<Vec<_>>());
    }
}

#[test]
fn a_text_is_cut_into_lines() {
    assert_eq!(lines("a\nb"), vec!["a", "b"]);
    assert_eq!(lines("a\nb\n"), vec!["a", "b"]);
    assert_eq!(lines("a\r\nb\r\n"), vec!["a", "b"]);
    assert_eq!(lines("a\n\nb"), vec!["a", "", "b"]);
    assert_eq!(lines(""), Vec::<&str>::new());
    assert_eq!(lines("\n"), vec![""]);
    // a carriage return stays when no line feed follows
    assert_eq!(lines("a\rb\r"), vec!["a\rb\r"]);
    for text in ["a\nb", "a\nb\n", "a\r\nb\r\n", "\r\n", "a\r", "\n\n", "x", "", "a\r\r\nb"] {
        assert_eq!(lines(text), text.lines().collect::<Vec<_>>());
    }
}

#[test]
fn a_place_is_read_from_its_line() {
    let loc = LocData::parse("SPR,Springfield,IL,US,114000,EN");
    assert_eq!(
        loc,
        LocData { abbr: "SPR", city: "Springfield", state: "IL", country: "US", population: 114000, lang: "EN" }
    );
    let short = LocData::parse("SPR,Springfield");
    assert_eq!(
        short,
        LocData { abbr: "SPR", city: "Springfield", state: "", country: "", population: 0, lang: "" }
    );
    assert_eq!(LocData::parse("a,b,c,d,lots,e,f").population, 0);
    assert_eq!(LocData::parse("a,b,c,d,lots,e,f").lang, "e");
    assert_eq!(LocData::parse("").abbr, "");
}

#[test]
fn a_nickname_is_read_under_the_headers() {
    let headers = ["EN", "ES", "FR"];
    let nick = NickData::parse("Bears,Osos,Ours", &headers);
    assert_eq!(nick.localized, vec![("EN", "Bears"), ("ES", "Osos"), ("FR", "Ours")]);
    let short = NickData::parse("Stars,Estrellas", &headers);
    assert_eq!(short.localized, vec![("EN", "Stars"), ("ES", "Estrellas")]);
    let long = NickData::parse("a,b,c,d", &headers);
    assert_eq!(long.localized.len(), 3);

    let place = |lang: &'static str| LocData { abbr: "", city: "", state: "", country: "", population: 0, lang };
    assert_eq!(nick.name(&place("ES")), "Osos");
    assert_eq!(nick.name(&place("EN")), "Bears");
    assert_eq!(short.name(&place("FR")), "");
    assert_eq!(nick.name(&place("DE")), "");
    // of two entries for one language the later counts
    let twice = NickData::parse("Bears,Osos,Ours", &["EN", "ES", "EN"]);
    assert_eq!(twice.name(&place("EN")), "Ours");
    assert!(nick.same(&NickData::parse("Bears,x,y", &headers)));
    assert!(!nick.same(&short));
}

#[test]
fn a_name_needs_a_weight() {
    assert_eq!(weighted("Al,3"), Some(("Al", 3)));
    assert_eq!(weighted("Al,3,more"), Some(("Al", 3)));
    assert_eq!(weighted(",0"), Some(("", 0)));
    assert_eq!(weighted("Al"), None);
    assert_eq!(weighted("Al,"), None);
    assert_eq!(weighted("Al,three"), None);
    assert_eq!(weighted(""), None);
    assert_eq!(read_names("Al,3\nBo,1\nnobody\n\nCy,x\nDi,9"), vec![("Al", 3), ("Bo", 1), ("Di", 9)]);
}

#[test]
fn the_tables_are_read_from_their_texts() {
    let data = data();
    assert_eq!(data.loc.len(), 4);
    assert_eq!(data.loc[0].abbr, "SPR");
    assert_eq!(data.loc[0].lang, "EN");
    assert_eq!(data.loc[2].city, "Ciudad de Mexico");
    assert_eq!(data.loc[2].population, 9_200_000);
    assert_eq!(data.loc[3].population, 0);
    assert_eq!(data.nick.len(), 3);
    assert_eq!(data.nick[1].localized, vec![("EN", "Kings"), ("ES", "Reyes"), ("FR", "Rois")]);
    assert_eq!(data.nick[2].localized, vec![("EN", "Stars"), ("ES", "Estrellas")]);
    assert_eq!(data.names_first, vec![("US", vec![("Al", 3), ("Bo", 1)]), ("MX", vec![("Luis", 2)])]);
    assert_eq!(data.names_last, vec![("US", vec![("Smith", 5)])]);

    let bare = Data::new("", "", &vec![], &vec![], "");
    assert!(bare.loc.is_empty() && bare.nick.is_empty());
    let only = Data::new("", "\nBears\n", &vec![], &vec![], "");
    assert_eq!(only.nick[0].localized, vec![("", "Bears")]);
}

#[test]
fn places_and_names_are_drawn_by_weight() {
    let data = data();
    let mut rng = rand::thread_rng();
    let mut seen = Vec::new();
    for _ in 0..200 {
        let loc = data.choose_location(&mut rng);
        assert!(loc.population > 0);
        if !seen.contains(&loc.abbr) {
            seen.push(loc.abbr);
        }
        let first = data.choose_name_first("US", &mut rng);
        assert!(first == "Al" || first == "Bo");
        assert_eq!(data.choose_name_first("MX", &mut rng), "Luis");
        assert_eq!(data.choose_name_last("US", &mut rng), "Smith");
        // a country without names gives the empty name
        assert_eq!(data.choose_name_last("MX", &mut rng), "");
        assert_eq!(data.choose_name_first("CA", &mut rng), "");
    }
    assert!(seen.contains(&"CDM") && seen.contains(&"MTL"));
    assert!(!seen.contains(&"SHE"));
}

#[test]
fn places_and_nicknames_are_collected_without_repeats() {
    let data = data();
    let mut rng = rand::thread_rng();
    let mut locs = Vec::new();
    let mut nicks = Vec::new();
    for _ in 0..300 {
        let before = locs.len();
        data.add_loc(&mut locs, &mut rng);
        assert!(locs.len() == before || locs.len() == before + 1);
        data.add_nick(&mut nicks, &mut rng);
    }
    assert_eq!(locs.len(), 4);
    assert_eq!(nicks.len(), 3);
    for i in 0..locs.len() {
        for j in 0..i {
            assert!(!locs[i].same(&locs[j]));
        }
    }
    for i in 0..nicks.len() {
        for j in 0..i {
            assert!(!nicks[i].same(&nicks[j]));
        }
    }
    let none = Data::new("", "", &vec![], &vec![], "");
    none.add_loc(&mut locs, &mut rng);
    assert_eq!(locs.len(), 4);
}

#[test]
fn ages_have_their_trends() {
    let data = data();
    let mut rng = rand::thread_rng();
    assert_eq!(AgeData::parse("33,4,5,6"), AgeData { age: 33, skew: [4, 5, 6] });
    assert_eq!(AgeData::parse("33,4"), AgeData { age: 33, skew: [4, 0, 0] });
    assert_eq!(AgeData::parse("old,x,1,"), AgeData { age: 0, skew: [0, 1, 0] });
    assert_eq!(data.age.len(), 4);
    assert_eq!(data.age_data(30), Some(AgeData { age: 30, skew: [1, 2, 1] }));
    assert_eq!(data.age_data(31), None);
    let young = data.age_data(18).unwrap();
    let old = data.age_data(40).unwrap();
    let mid = data.age_data(30).unwrap();
    let mut seen = Vec::new();
    for _ in 0..300 {
        assert_ne!(young.draw_trend(&mut rng), Trend::Decline);
        assert_ne!(old.draw_trend(&mut rng), Trend::Growth);
        // nothing to draw from: steady
        assert_eq!(data.age_data(41).unwrap().draw_trend(&mut rng), Trend::Steady);
        assert_eq!(AgeData { age: 1, skew: [u32::MAX, 1, 0] }.draw_trend(&mut rng), Trend::Steady);
        let t = mid.draw_trend(&mut rng);
        if !seen.contains(&t) {
            seen.push(t);
        }
    }
    assert_eq!(seen.len(), 3);
}

#[test]
fn a_place_or_nickname_is_kept_once() {
    let a = LocData { abbr: "A", city: "B", state: "C", country: "US", population: 1, lang: "EN" };
    let mut b = a;
    b.abbr = "Z";
    let mut locs = Vec::new();
    Data::keep_loc(&mut locs, a);
    assert_eq!(locs, vec![a]);
    Data::keep_loc(&mut locs, a);
    assert_eq!(locs, vec![a]);
    Data::keep_loc(&mut locs, b);
    assert_eq!(locs, vec![a, b]);
    Data::keep_loc(&mut locs, a);
    assert_eq!(locs, vec![a, b]);

    let headers = ["EN", "ES"];
    let bears = NickData::parse("Bears,Osos", &headers);
    let kings = NickData::parse("Kings,Reyes", &headers);
    let mut nicks = Vec::new();
    Data::keep_nick(&mut nicks, &bears);
    Data::keep_nick(&mut nicks, &bears);
    assert_eq!(nicks.len(), 1);
    assert_eq!(nicks[0].localized, bears.localized);
    Data::keep_nick(&mut nicks, &kings);
    Data::keep_nick(&mut nicks, &NickData::parse("Bears,Otros", &headers));
    assert_eq!(nicks.len(), 2);
    assert_eq!(nicks[1].localized, vec![("EN", "Kings"), ("ES", "Reyes")]);

    // a draw from a table of one always adds it to an empty list
    let one = Data::new("A,B,C,US,1,EN", "EN\nBears\n", &vec![], &vec![], "");
    let mut rng = rand::thread_rng();
    let mut locs = Vec::new();
    let mut nicks = Vec::new();
    one.add_loc(&mut locs, &mut rng);
    one.add_nick(&mut nicks, &mut rng);
    assert_eq!(locs.len(), 1);
    assert_eq!(locs[0].abbr, "A");
    assert_eq!(nicks.len(), 1);
    assert_eq!(nicks[0].localized, vec![("EN", "Bears")]);
    one.add_loc(&mut locs, &mut rng);
    one.add_nick(&mut nicks, &mut rng);
    assert_eq!((locs.len(), nicks.len()), (1, 1));
}
