pub mod hash_map_look_up;
pub mod levenshtein_checker;
pub mod precomputed_levenshtein_checker;
pub mod soundex_checker;
pub mod spell_checker;
pub mod wagner_fischer;
