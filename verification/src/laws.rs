//! What is proved of the toolchain beyond the contracts of its functions.
//!
//! - `table`: compiling keeps the table sound: no two variables share a
//!   cell, and none owns a cell of the syscall area or a scratch cell.
//! - `growth`: the compiler only appends to its output and to its table;
//!   a variable keeps its cell, and only assignment gives one.
//! - `pointer`: the text that the compiler emits keeps the pointer
//!   discipline, and the pointer of a machine that runs such a text is
//!   where the compiler's shadow pointer says.
//! - `boundary`: between the texts of two trees the pointer of a running
//!   machine is where the compiler had its shadow pointer between them.
//! - `execution`, `loops`, `idioms`, `subtraction`: what runs of plain
//!   instructions, loops, and the idioms of the compiler do to the tape.
//! - `values`, `statements`: the text that the compiler emits for
//!   assignments, conditionals, loops and blocks over numbers, variables,
//!   sums and differences does to the tape what the statement means.
//! - `assignments`: a number assigned is the number found, and a
//!   difference assigned stops at zero.
//! - `counting`: a loop of a tape program that takes one from the cell it
//!   tests has as many rounds as the cell held.
//! - `rounds`: a loop over a variable whose body takes one from that
//!   variable has as many rounds as the variable held.
//! - `countdown`: the program that counts one variable down and another
//!   up, compiled and run, ends with the start in the second.

pub mod assignments;
pub mod boundary;
pub mod countdown;
pub mod counting;
pub mod execution;
pub mod growth;
pub mod idioms;
pub mod loops;
pub mod pointer;
pub mod rounds;
pub mod statements;
pub mod subtraction;
pub mod table;
pub mod values;
