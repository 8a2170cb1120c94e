//! A small collection of verified routines: a travelling-salesman solver with
//! three search strategies, and a few classic exercises (Fibonacci numbers,
//! FizzBuzz classification, ROT13).

pub mod annealing;
pub mod brute_force;
pub mod fibonacci;
pub mod fizzbuzz;
pub mod geometry;
pub mod hill_climb;
pub mod neighbourhood;
pub mod permutations;
pub mod random;
pub mod rot13;
pub mod sampling;
pub mod tour;
pub mod tsp;
