pub mod distance_from_levenshtein;
pub mod factorial;
pub mod fibonaci;

pub use self::distance_from_levenshtein::distance_from_levenshtein;
pub use self::factorial::factorial;
pub use self::fibonaci::fibonaci;
