use meme_museum::meme::Meme;
use meme_museum::registry::{RegistryError, SimpleMemeMuseum};

fn create(reg: &mut SimpleMemeMuseum, id: u64, by: &str, title: &str, url: &str, museum: &str) {
    reg.crear_meme(id, by.to_string(), title.to_string(), url.to_string(), museum.to_string())
        .unwrap();
}

fn titles(ms: &[Meme]) -> Vec<String> {
    ms.iter().map(|m| m.titulo.clone()).collect()
}

#[test]
fn create_records_creator_and_no_donations() {
    let mut reg = SimpleMemeMuseum::default();
    create(&mut reg, 7, "alice.near", "Doge", "http://x/doge.png", "Louvre");
    let m = reg.obtener_meme(7).unwrap();
    assert_eq!(m.donaciones, 0);
    assert_eq!(m.creado_por, "alice.near");
}

#[test]
fn creations_into_one_museum_listed_in_order() {
    let mut reg = SimpleMemeMuseum::default();
    create(&mut reg, 10, "a.near", "first", "u1", "Louvre");
    create(&mut reg, 11, "b.near", "other", "u2", "MoMA");
    create(&mut reg, 12, "c.near", "second", "u3", "Louvre");
    create(&mut reg, 13, "d.near", "third", "u4", "Louvre");
    let listed = reg.obtener_memes_museo("Louvre".to_string());
    assert_eq!(listed.len(), 3);
    assert_eq!(titles(&listed), vec!["first", "second", "third"]);
    for m in &listed {
        let stored = reg.obtener_meme(m.id).unwrap();
        assert_eq!(stored.titulo, m.titulo);
        assert_eq!(stored.url, m.url);
        assert_eq!(stored.creado_por, m.creado_por);
        assert_eq!(stored.museo, "Louvre");
    }
}

#[test]
fn donation_adds_exact_amount() {
    let mut reg = SimpleMemeMuseum::default();
    create(&mut reg, 1, "alice.near", "Doge", "u", "Louvre");
    let t = reg.donar_a_meme(1, 250).unwrap();
    assert_eq!(t.to, "alice.near");
    assert_eq!(t.amount, 250);
    assert_eq!(reg.obtener_meme(1).unwrap().donaciones, 250);
}

#[test]
fn donation_of_zero_is_refused() {
    let mut reg = SimpleMemeMuseum::default();
    create(&mut reg, 1, "alice.near", "Doge", "u", "Louvre");
    assert_eq!(reg.donar_a_meme(1, 0).unwrap_err(), RegistryError::InvalidAmount);
    assert_eq!(reg.obtener_meme(1).unwrap().donaciones, 0);
}

#[test]
fn donation_overflow_is_refused() {
    let mut reg = SimpleMemeMuseum::default();
    create(&mut reg, 1, "alice.near", "Doge", "u", "Louvre");
    reg.donar_a_meme(1, u128::MAX).unwrap();
    assert_eq!(reg.donar_a_meme(1, 1).unwrap_err(), RegistryError::Overflow);
    assert_eq!(reg.obtener_meme(1).unwrap().donaciones, u128::MAX);
}

#[test]
fn get_after_create_round_trips() {
    let mut reg = SimpleMemeMuseum::default();
    create(&mut reg, 42, "bob.near", "Cat", "http://x/cat.gif", "Prado");
    let m = reg.obtener_meme(42).unwrap();
    assert_eq!(m.id, 42);
    assert_eq!(m.creado_por, "bob.near");
    assert_eq!(m.titulo, "Cat");
    assert_eq!(m.url, "http://x/cat.gif");
    assert_eq!(m.museo, "Prado");
    assert_eq!(m.donaciones, 0);
    assert!(reg.obtener_meme(43).is_none());
}

#[test]
fn museum_names_never_repeat() {
    let mut reg = SimpleMemeMuseum::default();
    for id in 0..5u64 {
        create(&mut reg, id, "a.near", "t", "u", "Louvre");
    }
    create(&mut reg, 5, "a.near", "t", "u", "MoMA");
    create(&mut reg, 6, "a.near", "t", "u", "Louvre");
    let mut names = reg.obtener_lista_mueseos();
    names.sort();
    assert_eq!(names, vec!["Louvre", "MoMA"]);
}

#[test]
fn scenario_one_entry_in_louvre() {
    let mut reg = SimpleMemeMuseum::default();
    create(&mut reg, 1, "alice.near", "Doge", "http://x/doge.png", "Louvre");
    assert_eq!(reg.obtener_lista_mueseos(), vec!["Louvre"]);
    let listed = reg.obtener_memes_museo("Louvre".to_string());
    assert_eq!(listed.len(), 1);
    assert_eq!(listed[0].donaciones, 0);
}

#[test]
fn scenario_two_museums() {
    let mut reg = SimpleMemeMuseum::default();
    create(&mut reg, 1, "a.near", "one", "u1", "Louvre");
    create(&mut reg, 2, "a.near", "two", "u2", "Louvre");
    create(&mut reg, 3, "a.near", "three", "u3", "MoMA");
    assert_eq!(reg.obtener_lista_mueseos().len(), 2);
    assert_eq!(reg.obtener_memes_museo("Louvre".to_string()).len(), 2);
    assert_eq!(reg.obtener_memes_museo("MoMA".to_string()).len(), 1);
}

#[test]
fn scenario_donate_twice() {
    let mut reg = SimpleMemeMuseum::default();
    create(&mut reg, 1, "alice.near", "Doge", "u", "Louvre");
    let first = reg.donar_a_meme(1, 500).unwrap();
    let second = reg.donar_a_meme(1, 500).unwrap();
    assert_eq!(reg.obtener_meme(1).unwrap().donaciones, 1000);
    for t in [first, second] {
        assert_eq!(t.to, "alice.near");
        assert_eq!(t.amount, 500);
    }
}

#[test]
fn scenario_donate_to_unknown_id() {
    let mut reg = SimpleMemeMuseum::default();
    create(&mut reg, 1, "alice.near", "Doge", "u", "Louvre");
    assert_eq!(reg.donar_a_meme(99, 500).unwrap_err(), RegistryError::NotFound);
    let all = reg.obtener_lista_memes();
    assert_eq!(all.len(), 1);
    assert_eq!(all[0].0, 1);
    assert_eq!(all[0].1.donaciones, 0);
}

#[test]
fn duplicate_identifier_is_refused() {
    let mut reg = SimpleMemeMuseum::default();
    create(&mut reg, 5, "alice.near", "Doge", "u", "Louvre");
    let r = reg.crear_meme(5, "bob.near".to_string(), "Cat".to_string(), "v".to_string(), "MoMA".to_string());
    assert_eq!(r, Err(RegistryError::DuplicateIdentifier));
    assert_eq!(reg.obtener_meme(5).unwrap().titulo, "Doge");
    assert_eq!(reg.obtener_lista_mueseos(), vec!["Louvre"]);
}

#[test]
fn unknown_museum_lists_nothing() {
    let mut reg = SimpleMemeMuseum::default();
    assert!(reg.obtener_memes_museo("Louvre".to_string()).is_empty());
    create(&mut reg, 1, "a.near", "t", "u", "Louvre");
    assert!(reg.obtener_memes_museo("Prado".to_string()).is_empty());
    assert!(reg.obtener_lista_mueseos().len() == 1);
}

#[test]
fn empty_texts_are_accepted() {
    let mut reg = SimpleMemeMuseum::default();
    create(&mut reg, 3, "", "", "", "");
    assert_eq!(reg.obtener_lista_mueseos(), vec![""]);
    assert_eq!(reg.obtener_memes_museo(String::new()).len(), 1);
}

#[test]
fn all_entries_in_creation_order() {
    let mut reg = SimpleMemeMuseum::default();
    assert!(reg.obtener_lista_memes().is_empty());
    create(&mut reg, 9, "a.near", "nine", "u", "Louvre");
    create(&mut reg, 4, "b.near", "four", "u", "MoMA");
    let all = reg.obtener_lista_memes();
    let ids: Vec<u64> = all.iter().map(|p| p.0).collect();
    assert_eq!(ids, vec![9, 4]);
    assert_eq!(all[1].1.titulo, "four");
}

#[test]
fn restore_keeps_entries_and_totals() {
    let mut reg = SimpleMemeMuseum::default();
    create(&mut reg, 1, "a.near", "one", "u1", "Louvre");
    create(&mut reg, 2, "b.near", "two", "u2", "MoMA");
    create(&mut reg, 3, "c.near", "three", "u3", "Louvre");
    reg.donar_a_meme(2, 70).unwrap();
    let entries: Vec<Meme> = reg.obtener_lista_memes().into_iter().map(|p| p.1).collect();
    let back = SimpleMemeMuseum::restaurar(&entries).unwrap();
    assert_eq!(back.obtener_meme(2).unwrap().donaciones, 70);
    assert_eq!(titles(&back.obtener_memes_museo("Louvre".to_string())), vec!["one", "three"]);
    let mut names = back.obtener_lista_mueseos();
    names.sort();
    assert_eq!(names, vec!["Louvre", "MoMA"]);
}

#[test]
fn restore_refuses_shared_identifier() {
    let a = Meme::new(1, "a.near".to_string(), "x".to_string(), "u".to_string(), "Louvre".to_string());
    let b = Meme::new(1, "b.near".to_string(), "y".to_string(), "v".to_string(), "MoMA".to_string());
    let r = SimpleMemeMuseum::restaurar(&vec![a, b]);
    assert_eq!(r.unwrap_err(), RegistryError::DuplicateIdentifier);
}

#[test]
fn default_meme_is_blank() {
    let m = Meme::default();
    assert_eq!(m.id, 0);
    assert!(m.creado_por.is_empty() && m.titulo.is_empty() && m.museo.is_empty() && m.url.is_empty());
    assert_eq!(m.donaciones, 0);
}

#[test]
fn get_round_trips_across_other_calls() {
    let mut reg = SimpleMemeMuseum::default();
    create(&mut reg, 8, "carol.near", "Frog", "http://x/frog.png", "Tate");
    create(&mut reg, 9, "dave.near", "Dog", "http://x/dog.png", "Tate");
    reg.donar_a_meme(9, 30).unwrap();
    let m = reg.obtener_meme(8).unwrap();
    assert_eq!((m.id, m.donaciones), (8, 0));
    assert_eq!(m.creado_por, "carol.near");
    assert_eq!(m.titulo, "Frog");
    assert_eq!(m.url, "http://x/frog.png");
    assert_eq!(m.museo, "Tate");
    let ids: Vec<u64> = reg.obtener_lista_memes().iter().map(|p| p.0).collect();
    assert_eq!(ids, vec![8, 9]);
}
