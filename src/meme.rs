use vstd::prelude::*;

verus! {

/// An entry of the registry, as the contracts see it.
pub struct MemeView {
    pub id: u64,
    pub creado_por: Seq<char>,
    pub titulo: Seq<char>,
    pub museo: Seq<char>,
    pub url: Seq<char>,
    pub donaciones: u128,
}

/// An entry of the registry: a meme submitted to a museum.
#[derive(Clone, Debug)]
pub struct Meme {
    pub id: u64,
    pub creado_por: String,
    pub titulo: String,
    pub museo: String,
    pub url: String,
    pub donaciones: u128,
}

impl View for Meme {
    type V = MemeView;

    open spec fn view(&self) -> MemeView {
        MemeView {
            id: self.id,
            creado_por: self.creado_por@,
            titulo: self.titulo@,
            museo: self.museo@,
            url: self.url@,
            donaciones: self.donaciones,
        }
    }
}

impl Meme {
    /// A fresh entry with the given identifier and creator, and no donations yet.
    pub fn new(id: u64, creado_por: String, titulo: String, url: String, museo: String) -> (r: Meme)
        ensures
            r.id == id,
            r.creado_por@ == creado_por@,
            r.titulo@ == titulo@,
            r.url@ == url@,
            r.museo@ == museo@,
            r.donaciones == 0,
    {
        Meme { id, creado_por, titulo, museo, url, donaciones: 0 }
    }

    /// A copy of this entry, field for field.
    pub fn duplicate(&self) -> (r: Meme)
        ensures
            r@ == self@,
    {
        Meme {
            id: self.id,
            creado_por: self.creado_por.clone(),
            titulo: self.titulo.clone(),
            museo: self.museo.clone(),
            url: self.url.clone(),
            donaciones: self.donaciones,
        }
    }
}

impl Default for Meme {
    /// An entry with identifier zero, empty texts and no donations.
    fn default() -> (r: Meme)
        ensures
            r.id == 0,
            r.creado_por@.len() == 0,
            r.titulo@.len() == 0,
            r.museo@.len() == 0,
            r.url@.len() == 0,
            r.donaciones == 0,
    {
        Meme {
            id: 0,
            creado_por: String::new(),
            titulo: String::new(),
            museo: String::new(),
            url: String::new(),
            donaciones: 0,
        }
    }
}

} // verus!
