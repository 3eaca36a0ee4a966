pub mod collision_layer;
