pub mod io;
