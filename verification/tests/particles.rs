use strings::lex_partes;
use strings::Partes;

#[test]
fn it_works() {
    let nombre = "John Michael Smith Johnson";
    println!(
        "{:?}",
        lex_partes(nombre).iter().map(|t| t.kind).collect::<Vec<Partes>>()
    );

    let nombre = "Alice Rodriguez y Garcia";
    println!(
        "{:?}",
        lex_partes(nombre).iter().map(|t| t.kind).collect::<Vec<Partes>>()
    );

    let nombre = "Sarah Elizabeth Martinez de Cruz";
    println!(
        "{:?}",
        lex_partes(nombre).iter().map(|t| t.kind).collect::<Vec<Partes>>()
    );

    let nombre = "Sarah Elizabeth Martinez de la Cruz";
    for token in lex_partes(nombre) {
        let parte = token.kind;
        println!("{} ({parte:?}) - ", token.text);
    }
}

#[test]
fn classifies_particles() {
    let tokens = lex_partes("Sarah Elizabeth Martinez de la Cruz");
    let kinds: Vec<Partes> = tokens.iter().map(|t| t.kind).collect();
    let texts: Vec<&str> = tokens.iter().map(|t| t.text.as_str()).collect();
    assert_eq!(
        kinds,
        vec![
            Partes::Parte,
            Partes::Parte,
            Partes::Parte,
            Partes::De,
            Partes::La,
            Partes::Parte
        ]
    );
    assert_eq!(
        texts,
        vec!["Sarah", "Elizabeth", "Martinez", "de", "la", "Cruz"]
    );
}

#[test]
fn keyword_needs_whole_token() {
    let tokens = lex_partes("Delgado");
    assert_eq!(tokens.len(), 1);
    assert_eq!(tokens[0].kind, Partes::Parte);
    assert_eq!(tokens[0].text, "Delgado");
}

#[test]
fn keywords_case_insensitive() {
    let kinds: Vec<Partes> = lex_partes("DE La dEl Y").iter().map(|t| t.kind).collect();
    assert_eq!(kinds, vec![Partes::De, Partes::La, Partes::Del, Partes::Y]);
}

#[test]
fn connector_y_between_surnames() {
    let kinds: Vec<Partes> = lex_partes("Alice Rodriguez y Garcia").iter().map(|t| t.kind).collect();
    assert_eq!(
        kinds,
        vec![Partes::Parte, Partes::Parte, Partes::Y, Partes::Parte]
    );
}

#[test]
fn scanner_skips_whitespace_only() {
    assert!(lex_partes(" \t\n \n\t ").is_empty());
    assert!(lex_partes("").is_empty());
}

#[test]
fn carriage_return_is_no_token_boundary() {
    // the scanner's whitespace is space, tab and newline; a carriage return
    // stays inside the run, so the run no longer spells a bare keyword
    let tokens = lex_partes("de\rla");
    assert_eq!(tokens.len(), 1);
    assert_eq!(tokens[0].kind, Partes::Parte);
    assert_eq!(tokens[0].text, "de\rla");
}
