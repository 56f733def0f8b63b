//! What is to be downloaded to build the catalogue: the names of the
//! sprites, and the address of the picture of each.
use vstd::prelude::*;
use vstd::string::StringExecFns;

verus! {

/// A picture that is to be downloaded.
#[derive(Debug, Clone)]
pub struct Download {
    pub url: String,
    pub name: String,
    pub shiny: bool,
}

/// The name of a form of a sprite: the name of the sprite, a hyphen and the form.
pub open spec fn variant_text(slug: Seq<char>, form: Seq<char>) -> Seq<char> {
    slug + "-"@ + form
}

/// The names under which a sprite is drawn: its own, and one for each of its forms.
pub open spec fn variant_texts(slug: Seq<char>, forms: Seq<String>) -> Seq<Seq<char>> {
    Seq::new(
        forms.len() + 1,
        |i: int|
            if i == 0 {
                slug
            } else {
                variant_text(slug, forms[i - 1]@)
            },
    )
}

/// The texts of a sequence of strings.
pub open spec fn texts(strings: Seq<String>) -> Seq<Seq<char>> {
    Seq::new(strings.len(), |i: int| strings[i]@)
}

/// The names under which a sprite is drawn: its own, and one for each of its forms.
pub fn get_variants(slug: &str, forms: &Vec<String>) -> (out: Vec<String>)
    requires
        forms.len() < usize::MAX,
    ensures
        texts(out@) == variant_texts(slug@, forms@),
{
    let mut variants: Vec<String> = Vec::new();
    variants.push(String::from_str(slug));
    let mut i: usize = 0;
    while i < forms.len()
        invariant
            i <= forms.len(),
            variants.len() == i + 1,
            variants[0]@ == slug@,
            forall|k: int| 1 <= k <= i ==> (#[trigger] variants[k])@ == variant_text(
                slug@,
                forms[k - 1]@,
            ),
        decreases forms.len() - i,
    {
        let mut name = String::from_str(slug);
        name.append("-");
        name.append(forms[i].as_str());
        variants.push(name);
        i = i + 1;
    }
    assert(texts(variants@) =~= variant_texts(slug@, forms@));
    variants
}

/// The directory of the pictures of a kind: shiny or regular.
pub open spec fn kind_text(shiny: bool) -> Seq<char> {
    if shiny {
        "shiny"@
    } else {
        "regular"@
    }
}

/// The address of the picture of a sprite.
pub open spec fn url_text(base: Seq<char>, shiny: bool, name: Seq<char>) -> Seq<char> {
    base + "/assets/colorscripts/"@ + kind_text(shiny) + "/"@ + name
}

/// The address of the picture of a sprite.
pub fn sprite_url(base: &str, shiny: bool, name: &str) -> (out: String)
    ensures
        out@ == url_text(base@, shiny, name@),
{
    let mut url = String::from_str(base);
    url.append("/assets/colorscripts/");
    if shiny {
        url.append("shiny");
    } else {
        url.append("regular");
    }
    url.append("/");
    url.append(name);
    url
}

/// The address of the list of sprites.
pub fn list_url(base: &str) -> (out: String)
    ensures
        out@ == base@ + "/assets/pokemon.json"@,
{
    let mut url = String::from_str(base);
    url.append("/assets/pokemon.json");
    url
}

/// The pictures that are to be downloaded for the names: for each name the
/// regular picture and then the shiny one.
pub fn downloads(base: &str, names: &Vec<String>) -> (out: Vec<Download>)
    requires
        2 * names.len() <= usize::MAX,
    ensures
        out.len() == 2 * names.len(),
        forall|i: int|
            0 <= i < out.len() ==> {
                &&& (#[trigger] out[i]).shiny == (i % 2 == 1)
                &&& out[i].name@ == names[i / 2]@
                &&& out[i].url@ == url_text(base@, i % 2 == 1, names[i / 2]@)
            },
{
    let mut out: Vec<Download> = Vec::new();
    let mut i: usize = 0;
    while i < names.len()
        invariant
            i <= names.len(),
            out.len() == 2 * i,
            forall|k: int|
                0 <= k < out.len() ==> {
                    &&& (#[trigger] out[k]).shiny == (k % 2 == 1)
                    &&& out[k].name@ == names[k / 2]@
                    &&& out[k].url@ == url_text(base@, k % 2 == 1, names[k / 2]@)
                },
        decreases names.len() - i,
    {
        let name = names[i].as_str();
        out.push(
            Download { url: sprite_url(base, false, name), name: String::from_str(name), shiny: false },
        );
        out.push(
            Download { url: sprite_url(base, true, name), name: String::from_str(name), shiny: true },
        );
        i = i + 1;
    }
    out
}

} // verus!
