//! Generators: each fills or transforms a level in place.

pub mod dungeon;
pub mod faction;
pub mod faction2;
pub mod maze;
pub mod random;
pub mod room;
pub mod rule;

pub use self::dungeon::DungeonGen;
pub use self::faction::FactionGen;
pub use self::faction2::FactionGen as FactionGen2;
pub use self::maze::MazeGen;
pub use self::room::RoomGen;
