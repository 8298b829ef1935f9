use citeproc::names::{replace_apostrophes, PersonName, TrimInPlace};

#[test]
fn parse_particles() {
    let mut hi: String = " hi ".into();
    hi.trim_in_place();
    assert_eq!(hi, "hi");

    let mut init = PersonName {
        given: Some("Schnitzel".into()),
        family: Some("von Crumb".into()),
        ..Default::default()
    };
    init.parse_particles();
    assert_eq!(
        init,
        PersonName {
            given: Some("Schnitzel".into()),
            non_dropping_particle: Some("von".into()),
            family: Some("Crumb".into()),
            ..Default::default()
        }
    );

    let mut init = PersonName {
        given: Some("Eric".into()),
        family: Some("van der Vlist".into()),
        ..Default::default()
    };
    init.parse_particles();
    assert_eq!(
        init,
        PersonName {
            given: Some("Eric".into()),
            non_dropping_particle: Some("van der".into()),
            family: Some("Vlist".into()),
            ..Default::default()
        }
    );

    let mut init = PersonName {
        given: Some("Eric".into()),
        family: Some("del Familyname".into()),
        ..Default::default()
    };
    init.parse_particles();
    assert_eq!(
        init,
        PersonName {
            given: Some("Eric".into()),
            non_dropping_particle: Some("del".into()),
            family: Some("Familyname".into()),
            ..Default::default()
        }
    );

    let mut init = PersonName {
        given: Some("Givenname d'".into()),
        family: Some("Familyname".into()),
        ..Default::default()
    };
    init.parse_particles();
    assert_eq!(
        init,
        PersonName {
            given: Some("Givenname".into()),
            dropping_particle: Some("d\u{2019}".into()),
            family: Some("Familyname".into()),
            ..Default::default()
        }
    );

    let mut init = PersonName {
        family: Some("Aubignac".into()),
        given: Some("François Hédelin d’".into()),
        ..Default::default()
    };
    init.parse_particles();
    assert_eq!(
        init,
        PersonName {
            given: Some("François Hédelin".into()),
            dropping_particle: Some("d\u{2019}".into()),
            family: Some("Aubignac".into()),
            ..Default::default()
        }
    );

    let mut init = PersonName {
        family: Some("d’Aubignac".into()),
        given: Some("François Hédelin".into()),
        ..Default::default()
    };
    init.parse_particles();
    assert_eq!(
        init,
        PersonName {
            given: Some("François Hédelin".into()),
            non_dropping_particle: Some("d\u{2019}".into()),
            family: Some("Aubignac".into()),
            ..Default::default()
        }
    );
}

#[test]
fn pre_supplied_particles_left_alone() {
    // With a non-dropping particle already given, nothing is parsed;
    // only apostrophes are normalized.
    let mut init = PersonName {
        given: Some("Eric".into()),
        family: Some("van der Vlist".into()),
        non_dropping_particle: Some("d'".into()),
        ..Default::default()
    };
    init.parse_particles();
    assert_eq!(
        init,
        PersonName {
            given: Some("Eric".into()),
            family: Some("van der Vlist".into()),
            non_dropping_particle: Some("d\u{2019}".into()),
            ..Default::default()
        }
    );

    let mut init = PersonName {
        given: Some("Eric".into()),
        family: Some("van der Vlist".into()),
        static_particles: true,
        ..Default::default()
    };
    init.parse_particles();
    assert_eq!(
        init,
        PersonName {
            given: Some("Eric".into()),
            family: Some("van der Vlist".into()),
            static_particles: true,
            ..Default::default()
        }
    );
}

#[test]
fn suffix_split_off_given() {
    let mut init = PersonName {
        given: Some("John, Jr.".into()),
        family: Some("Doe".into()),
        ..Default::default()
    };
    init.parse_particles();
    assert_eq!(
        init,
        PersonName {
            given: Some("John".into()),
            family: Some("Doe".into()),
            suffix: Some("Jr.".into()),
            ..Default::default()
        }
    );

    // A comma-with-bang forces the comma before the rendered suffix.
    let mut init = PersonName {
        given: Some("John,! Jr.".into()),
        family: Some("Doe".into()),
        ..Default::default()
    };
    init.parse_particles();
    assert_eq!(init.suffix, Some("Jr.".into()));
    assert!(init.comma_suffix);
}

#[test]
fn replace_apostrophes_normalizes() {
    assert_eq!(replace_apostrophes("d'Aubignac"), "d\u{2019}Aubignac");
    assert_eq!(replace_apostrophes("no apostrophe"), "no apostrophe");
    assert_eq!(replace_apostrophes(""), "");
}

#[test]
fn trim_in_place_variants() {
    let mut s: String = "  both  ".into();
    s.trim_in_place();
    assert_eq!(s, "both");

    let mut s: String = "  start".into();
    s.trim_start_in_place();
    assert_eq!(s, "start");

    let mut s: String = "end  ".into();
    s.trim_end_in_place();
    assert_eq!(s, "end");

    let mut s: String = "   ".into();
    s.trim_in_place();
    assert_eq!(s, "");
}
