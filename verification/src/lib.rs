//! The verified core of the Block Byte voxel game.

pub mod coord;
pub mod face;
pub mod orientation;
pub mod aabb;
pub mod rotation;
pub mod text;
pub mod scripts;
pub mod component_tree;
pub mod tick_list;
pub mod registry;
pub mod plants;
pub mod world;
pub mod machine;
pub mod color;
pub mod damage;
pub mod inventory;
pub mod movement;
pub mod block;
pub mod picture;
pub mod texture;
pub mod language;
pub mod prefab;
pub mod ui_style;
pub mod palette;
pub mod keyed_store;
pub mod mesh;
pub mod client_world;
pub mod vertices;
pub mod raycast;
pub mod chunk_mesh;
pub mod property;
pub mod input;
pub mod net;
pub mod screen;
pub mod client_game;
pub mod controls;
pub mod keys;
pub mod placing;
pub mod atlas;
pub mod sorted;
pub mod weighted;
pub mod viewmodel;
pub mod clip;
pub mod render_plan;
pub mod model;
pub mod element_style;
pub mod ui_element;
pub mod shader;
pub mod screen_frame;
