//! The command interpreter: one line of text in, one call against the world
//! model, one description string out. The verbs are `look`, `walk <dir>`,
//! `pickup <name>` and `inventory`; anything else is answered with a plain
//! error string and leaves the state alone.

use vstd::prelude::*;

use crate::game::{object_of_name, Game, GameView, Object};
use crate::text::{
    first_token, lemma_next_non_space, second_token, skip_spaces, scan_token, str_eq,
};

verus! {

/// What one command line does to the game: the next state and the reply.
pub open spec fn cmd_result(g: GameView, line: Seq<char>) -> (GameView, Seq<char>) {
    match first_token(line) {
        None => (g, "please type command"@),
        Some(verb) => {
            if verb == "look"@ {
                (g, g.look_text())
            } else if verb == "walk"@ {
                match second_token(line) {
                    Some(dir) => g.walk_result(dir),
                    None => (g, "walk command needs a arg for direction"@),
                }
            } else if verb == "pickup"@ {
                match second_token(line) {
                    Some(name) => match object_of_name(name) {
                        Some(o) => g.pickup_result(o),
                        None => (g, name + " is not object"@),
                    },
                    None => (g, "pickup command needs a arg for direction"@),
                }
            } else if verb == "inventory"@ {
                (g, g.inventory_text())
            } else {
                (g, verb + " is not command"@)
            }
        },
    }
}

/// Interpret one command line against the game.
pub fn cmd(line: String, game: &mut Game) -> (r: String)
    requires
        old(game)@.wf(),
    ensures
        final(game)@ == cmd_result(old(game)@, line@).0,
        r@ == cmd_result(old(game)@, line@).1,
        final(game)@.wf(),
{
    let l: &str = line.as_str();
    let n = l.unicode_len();
    let a = skip_spaces(l, 0);
    proof {
        lemma_next_non_space(l@, 0);
    }
    if a == n {
        let mut r = String::new();
        r.append("please type command");
        proof {
            assert(r@ =~= "please type command"@);
        }
        return r;
    }
    let b = scan_token(l, a);
    proof {
        crate::text::lemma_token_end(l@, a as int);
    }
    let verb: &str = l.substring_char(a, b);
    if str_eq(verb, "look") {
        game.look()
    } else if str_eq(verb, "walk") {
        let c = skip_spaces(l, b);
        proof {
            lemma_next_non_space(l@, b as int);
        }
        if c == n {
            let mut r = String::new();
            r.append("walk command needs a arg for direction");
            proof {
                assert(r@ =~= "walk command needs a arg for direction"@);
            }
            r
        } else {
            let d = scan_token(l, c);
            let dir: &str = l.substring_char(c, d);
            game.walk(dir)
        }
    } else if str_eq(verb, "pickup") {
        let c = skip_spaces(l, b);
        proof {
            lemma_next_non_space(l@, b as int);
        }
        if c == n {
            let mut r = String::new();
            r.append("pickup command needs a arg for direction");
            proof {
                assert(r@ =~= "pickup command needs a arg for direction"@);
            }
            r
        } else {
            let d = scan_token(l, c);
            let name: &str = l.substring_char(c, d);
            match Object::from_str(name) {
                Some(o) => game.pickup(o),
                None => {
                    let mut r = String::new();
                    r.append(name);
                    r.append(" is not object");
                    proof {
                        assert(r@ =~= name@ + " is not object"@);
                    }
                    r
                },
            }
        }
    } else if str_eq(verb, "inventory") {
        game.inventory()
    } else {
        let mut r = String::new();
        r.append(verb);
        r.append(" is not command");
        proof {
            assert(r@ =~= verb@ + " is not command"@);
        }
        r
    }
}

} // verus!
