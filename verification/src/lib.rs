//! Verified core of a small neural-network and geometry toolkit.
pub mod batch;
pub mod batch_law;
pub mod bvh;
pub mod bvh_winding;
pub mod compact;
pub mod corruption;
pub mod corruption_law;
pub mod counting;
pub mod device;
pub mod device_law;
pub mod edges;
pub mod error;
pub mod fields;
pub mod glb;
pub mod gltf;
pub mod gltf_file_law;
pub mod gltf_law;
pub mod gltf_node;
pub mod gltf_scene_law;
pub mod gltf_write;
pub mod gpu_attention;
pub mod gpu_attention_law;
pub mod gpu_cross;
pub mod gpu_cross_law;
pub mod gpu_feed_forward;
pub mod gpu_feed_forward_law;
pub mod gpu_flow;
pub mod gpu_flow_law;
pub mod gpu_flow_stack;
pub mod gpu_grouping;
pub mod gpu_host_attention;
pub mod gpu_host_attention_law;
pub mod gpu_matrix;
pub mod gpu_mixture_law;
pub mod gpu_model;
pub mod gpu_model_law;
pub mod gpu_model_stack;
pub mod gpu_moe;
pub mod gpu_moe_law;
pub mod gpu_product_law;
pub mod gpu_shape;
pub mod gpu_shape_law;
pub mod gpu_stack;
pub mod gpu_stack_law;
pub mod gpu_transformer;
pub mod json;
pub mod losses;
pub mod march;
pub mod march_law;
pub mod masked_lm;
pub mod matrix;
pub mod mesh;
pub mod metal_batch;
pub mod metal_batch_law;
pub mod metal_fit;
pub mod metal_training;
pub mod metal_update;
pub mod mixing;
pub mod mixing_law;
pub mod mmdit;
pub mod mmdit_law;
pub mod mmdit_layers;
pub mod mmdit_load;
pub mod mmdit_names;
pub mod mmdit_norms;
pub mod mmdit_pass;
pub mod mmdit_place_law;
pub mod mmdit_positions;
pub mod moe;
pub mod moe_law;
pub mod obj;
pub mod obj_face_law;
pub mod obj_file_law;
pub mod obj_law;
pub mod obj_write;
pub mod quadrics;
pub mod queue;
pub mod simplify;
pub mod simplify_law;
pub mod simplify_turn_law;
pub mod text;
pub mod tiles;
pub mod watertight;
