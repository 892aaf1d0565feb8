//! Five-card poker hands: parsing, classification and ranking.

pub mod card;
pub mod error;
pub mod hand;
pub mod hand_rank;
pub mod order;
pub mod rank;
pub mod showdown;
pub mod split;
pub mod suit;

pub use card::Card;
pub use error::ParseError;
pub use hand::Hand;
pub use hand_rank::HandRank;
pub use rank::Rank;
pub use suit::Suit;
