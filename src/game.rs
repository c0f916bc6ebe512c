//! The server's game context: the loop registry, the tile mapping table and
//! the outbound channel handed to every loop it builds.
use std::sync::Arc;
use vstd::prelude::*;
use vstd::hash_map::StringHashMap;
use crate::mappings::{
    MAX_NAMES,
    mapping_table,
    mappings_from_trimmed,
    table_names,
    trim_lines,
    unique_mappings_from_trimmed,
    views,
};
use crate::registry::{GameLoopRegistry, attempts_after, handle_after, loops_after, unshared};

verus! {

/// The registry of game loops, the tile mappings, and the channel `send` on
/// which loops deliver messages to clients.
#[verifier::reject_recursive_types(L)]
pub struct Game<L, S> {
    pub game_loops: GameLoopRegistry<L>,
    pub mappings: StringHashMap<i16>,
    pub send: S,
}

impl<L, S> Game<L, S> {
    /// The loops registered, by map name.
    pub open spec fn loops(&self) -> Map<Seq<char>, Arc<L>> {
        self.game_loops@
    }

    /// The map names that builds were run for, in order.
    pub open spec fn attempts(&self) -> Seq<Seq<char>> {
        self.game_loops.attempts()
    }

    /// A game with no loops, the tile mappings built from the manifest's lines
    /// and the image stems, and the channel `send`.
    pub fn new(send: S, manifest_lines: &Vec<String>, image_stems: &Vec<String>) -> (r: Self)
        requires
            manifest_lines.len() + image_stems.len() <= MAX_NAMES,
        ensures
            r.loops() == Map::<Seq<char>, Arc<L>>::empty(),
            r.attempts() == Seq::<Seq<char>>::empty(),
            r.mappings@ == mapping_table(views(manifest_lines@), views(image_stems@)),
            r.send == send,
    {
        Game {
            game_loops: GameLoopRegistry::new(),
            mappings: Game::<L, S>::create_mappings(manifest_lines, image_stems),
            send: send,
        }
    }

    /// Builds the tile mappings: every manifest line is trimmed and, unless
    /// blank, gets the next identifier from 0; then every image stem does. A
    /// name given twice keeps the later identifier.
    pub fn create_mappings(manifest_lines: &Vec<String>, image_stems: &Vec<String>) -> (r:
        StringHashMap<i16>)
        requires
            manifest_lines.len() + image_stems.len() <= MAX_NAMES,
        ensures
            r@ == mapping_table(views(manifest_lines@), views(image_stems@)),
    {
        let trimmed = trim_lines(manifest_lines);
        mappings_from_trimmed(&trimmed, image_stems)
    }

    /// Builds the tile mappings as `create_mappings` does, but refuses a name
    /// given twice: `None` when a name repeats across the non-blank trimmed
    /// lines and the stems.
    pub fn create_unique_mappings(manifest_lines: &Vec<String>, image_stems: &Vec<String>) -> (r:
        Option<StringHashMap<i16>>)
        requires
            manifest_lines.len() + image_stems.len() <= MAX_NAMES,
        ensures
            r.is_some() == table_names(views(manifest_lines@), views(image_stems@)).no_duplicates(),
            r matches Some(m) ==> m@ == mapping_table(views(manifest_lines@), views(image_stems@)),
    {
        let trimmed = trim_lines(manifest_lines);
        unique_mappings_from_trimmed(&trimmed, image_stems)
    }

    /// Returns the loop registered for `map_name`, or builds one with
    /// `create`, handing it the map name and the outbound channel. See
    /// `GameLoopRegistry::get_or_create`.
    pub fn get_or_create_game_loop<F>(&mut self, map_name: &str, create: F) -> (r: Option<Arc<L>>)
        where F: FnOnce(&str, &S) -> Option<L>
        requires
            !old(self).loops().contains_key(map_name@) ==> create.requires(
                (map_name, &old(self).send),
            ),
        ensures
            exists|made: Option<Arc<L>>|
                {
                    &&& !old(self).loops().contains_key(map_name@) ==> create.ensures(
                        (map_name, &old(self).send),
                        unshared(made),
                    )
                    &&& r == handle_after(old(self).loops(), map_name@, made)
                    &&& final(self).loops() == loops_after(old(self).loops(), map_name@, made)
                },
            final(self).attempts() == attempts_after(
                old(self).loops(),
                old(self).attempts(),
                map_name@,
            ),
            final(self).mappings == old(self).mappings,
            final(self).send == old(self).send,
    {
        self.game_loops.get_or_create(map_name, &self.send, create)
    }
}

} // verus!
