//! Reservoir computing on ternary nodes: the integer core of an echo state
//! network whose reservoir state lives in {-1, 0, +1}.

pub mod draw_laws;
pub mod lcg;
pub mod sign_matrix;
pub mod ternary;
pub mod washout;
