//! The message of the day shown on the about panel.
use vstd::prelude::*;
use crate::text::views_of;

verus! {

/// The messages of the day, one of which is shown at random.
pub open spec fn motd_messages() -> Seq<Seq<char>> {
    seq![
        "First we Ball, then we Atro. We Balatro!"@,
        "Someone call Bean!"@,
        "Surely you'll pull a baron this time."@,
        "Also try the SealSeal mod!"@,
        "You are valid!"@,
        "Nerf Ceremonial Dagger."@,
        "Praise Zech!"@,
        "Only cool people can see this message :3"@,
        ":3"@,
        "Also try Cloverpit!"@,
        "PhotoPhotoPhotoChadChad"@,
    ]
}

#[verifier::external_type_specification]
#[verifier::external_body]
pub struct ExStdRng(rand::rngs::StdRng);

/// `rand::SeedableRng::try_from_os_rng` for `rand::rngs::StdRng`: a generator seeded
/// from the operating system's entropy source, or an error when that source fails.
/// Nothing is stated of which comes back: it depends on the machine.
#[verifier::external_body]
fn seeded_rng() -> (res: Result<rand::rngs::StdRng, ()>) {
    match <rand::rngs::StdRng as rand::SeedableRng>::try_from_os_rng() {
        Ok(rng) => Ok(rng),
        Err(_) => Err(()),
    }
}

/// Picks one of `options` with `rand::seq::IndexedRandom::choose` and the given
/// generator. Which one is left to chance; nothing is picked from an empty list.
#[verifier::external_body]
fn choose_message(options: &Vec<String>, rng: &mut rand::rngs::StdRng) -> (res: Option<String>)
    ensures
        res is None <==> options@.len() == 0,
        res matches Some(m) ==> exists|i: int| 0 <= i < options@.len() && options@[i]@ == m@,
{
    rand::seq::IndexedRandom::choose(options.as_slice(), rng).cloned()
}

/// The messages of the day, in order.
pub fn motd_options() -> (options: Vec<String>)
    ensures
        views_of(options@) == motd_messages(),
{
    let mut options: Vec<String> = Vec::new();
    options.push(String::from_str("First we Ball, then we Atro. We Balatro!"));
    options.push(String::from_str("Someone call Bean!"));
    options.push(String::from_str("Surely you'll pull a baron this time."));
    options.push(String::from_str("Also try the SealSeal mod!"));
    options.push(String::from_str("You are valid!"));
    options.push(String::from_str("Nerf Ceremonial Dagger."));
    options.push(String::from_str("Praise Zech!"));
    options.push(String::from_str("Only cool people can see this message :3"));
    options.push(String::from_str(":3"));
    options.push(String::from_str("Also try Cloverpit!"));
    options.push(String::from_str("PhotoPhotoPhotoChadChad"));
    assert(views_of(options@) =~= motd_messages());
    options
}

/// A message of the day, drawn at random from `motd_messages`; the first message when
/// the operating system cannot seed a generator.
pub fn motd() -> (msg: String)
    ensures
        motd_messages().contains(msg@),
{
    let options = motd_options();
    assert forall|i: int| 0 <= i < options@.len() implies #[trigger] options@[i]@ == motd_messages()[i] by {
        assert(views_of(options@)[i] == options@[i]@);
    }
    assert(options@.len() == motd_messages().len());
    match seeded_rng() {
        Ok(mut rng) => match choose_message(&options, &mut rng) {
            Some(m) => {
                let ghost i = choose|i: int| 0 <= i < options@.len() && options@[i]@ == m@;
                assert(motd_messages()[i] == m@);
                m
            },
            None => {
                assert(false);
                String::new()
            },
        },
        Err(()) => {
            assert(motd_messages()[0] == options@[0]@);
            options[0].clone()
        },
    }
}

} // verus!
