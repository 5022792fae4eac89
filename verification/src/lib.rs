pub mod engine;
pub mod laws;
pub mod model;

pub use engine::GameState;
pub use model::GamePhase;
pub use model::Player;
pub use model::Square;
