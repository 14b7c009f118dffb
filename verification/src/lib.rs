pub mod agent;
pub mod amap;
pub mod calendar;
pub mod city;
pub mod clock;
pub mod cluster;
pub mod config;
pub mod hotel;
pub mod json;
pub mod knowledge;
pub mod legend;
pub mod linkage;
pub mod llm;
pub mod manage;
pub mod markup;
pub mod mode;
pub mod notes;
pub mod order;
pub mod overview;
pub mod pace;
pub mod phase;
pub mod prompt;
pub mod provider;
pub mod scene;
pub mod screen;
pub mod search_web;
pub mod session;
pub mod simplify;
pub mod stream;
pub mod text;
pub mod toggles;
pub mod trains;
pub mod transit;
pub mod turn;
pub mod ui;
pub mod xhs;
